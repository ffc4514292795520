//! The encoder and decoder: a string becomes a tag plus a fold of its codes
//! (or URO deltas), left-justified in the coding region; decoding pulls the
//! units back off the top.

use crate::pages::in_uro;
use crate::pages::page_entry;
use crate::pages::spec_code_of;
use crate::pages::spec_page_of;
use crate::pages::uro_delta;
use crate::pages::URO_LO;
use crate::pages::URO_PAGE;
use crate::units::fold_units;
use crate::units::padded;
use crate::units::units_in_range;
use crate::width::char_slots;
use crate::width::coding_bits;
use crate::width::special_slots;
use crate::width::tag_bits;
use crate::width::valid_width;
use vstd::arithmetic::power2::lemma_pow2_adds;
use vstd::arithmetic::power2::lemma_pow2_pos;
use vstd::arithmetic::power2::pow2;
use vstd::prelude::*;

verus! {

/// Why a string could not be encoded at the requested width.
#[derive(Clone, Copy, Debug, PartialEq, Eq, Structural)]
pub enum EncodeError {
    /// More codable units than the width has room for.
    TooLong,
    /// The first character belongs to no page and lies outside the URO block.
    NoCodePageFor(char),
    /// The first character's page is not a primary page, and the width has
    /// only 2 tag bits.
    PageUnavailable(usize),
    /// A later character is missing from the page (or block) the first
    /// character selected.
    MissingFromPage(char),
}

/// The tag as stored at the top of a width-`n` value: narrow widths keep
/// only the high 2 of the 4 tag bits.
pub open spec fn stored_tag(p: int, n: nat) -> int {
    if tag_bits(n) == 2 {
        p / 4
    } else {
        p
    }
}

/// Whether page `p` can be named by a tag of width `n`.
pub open spec fn page_available(p: int, n: nat) -> bool {
    tag_bits(n) == 2 ==> p % 4 == 0
}

/// The 6-bit codes of `s` in page `p` (meaningful when every character is
/// in the page).
pub open spec fn table_codes(s: Seq<char>, p: int) -> Seq<nat> {
    Seq::new(s.len(), |i: int| spec_code_of(p, s[i])->Some_0 as nat)
}

/// The 15-bit units of `s` in the URO block: delta plus one, so that a zero
/// unit can mark end of string.
pub open spec fn uro_units(s: Seq<char>) -> Seq<nat> {
    Seq::new(s.len(), |i: int| (uro_delta(s[i]) + 1) as nat)
}

/// Length of the longest prefix of `s` whose characters all sit in page `p`.
pub open spec fn table_prefix(s: Seq<char>, p: int) -> int
    decreases s.len(),
{
    if s.len() == 0 || spec_code_of(p, s[0]) is None {
        0
    } else {
        1 + table_prefix(s.drop_first(), p)
    }
}

/// Length of the longest prefix of `s` lying wholly in the URO block.
pub open spec fn uro_prefix(s: Seq<char>) -> int
    decreases s.len(),
{
    if s.len() == 0 || !in_uro(s[0]) {
        0
    } else {
        1 + uro_prefix(s.drop_first())
    }
}

/// What the longest-codable-prefix length means, pointwise.
pub proof fn lemma_table_prefix(s: Seq<char>, p: int)
    ensures
        0 <= table_prefix(s, p) <= s.len(),
        forall|j: int| 0 <= j < table_prefix(s, p) ==> spec_code_of(p, #[trigger] s[j]) is Some,
        table_prefix(s, p) < s.len() ==> spec_code_of(p, s[table_prefix(s, p)]) is None,
    decreases s.len(),
{
    if s.len() != 0 && spec_code_of(p, s[0]) is Some {
        lemma_table_prefix(s.drop_first(), p);
        assert forall|j: int| 0 <= j < table_prefix(s, p) implies spec_code_of(
            p,
            #[trigger] s[j],
        ) is Some by {
            if j >= 1 {
                assert(s[j] == s.drop_first()[j - 1]);
            }
        }
        if table_prefix(s, p) < s.len() {
            assert(s[table_prefix(s, p)] == s.drop_first()[table_prefix(s.drop_first(), p)]);
        }
    }
}

/// What the longest-URO-prefix length means, pointwise.
pub proof fn lemma_uro_prefix(s: Seq<char>)
    ensures
        0 <= uro_prefix(s) <= s.len(),
        forall|j: int| 0 <= j < uro_prefix(s) ==> in_uro(#[trigger] s[j]),
        uro_prefix(s) < s.len() ==> !in_uro(s[uro_prefix(s)]),
    decreases s.len(),
{
    if s.len() != 0 && in_uro(s[0]) {
        lemma_uro_prefix(s.drop_first());
        assert forall|j: int| 0 <= j < uro_prefix(s) implies in_uro(#[trigger] s[j]) by {
            if j >= 1 {
                assert(s[j] == s.drop_first()[j - 1]);
            }
        }
        if uro_prefix(s) < s.len() {
            assert(s[uro_prefix(s)] == s.drop_first()[uro_prefix(s.drop_first())]);
        }
    }
}

/// Encoding a nonempty string through the page `p` its first character
/// selected: tag on top, 6-bit codes folded below, zero-padded.
pub open spec fn spec_encode_table(s: Seq<char>, p: int, n: nat) -> Result<nat, EncodeError> {
    let cap = char_slots(n);
    let pre = table_prefix(s, p);
    if pre < s.len() && pre < cap {
        Err(EncodeError::MissingFromPage(s[pre]))
    } else if s.len() > cap {
        Err(EncodeError::TooLong)
    } else {
        Ok((stored_tag(p, n) * pow2(coding_bits(n)) + padded(6, table_codes(s, p), cap)) as nat)
    }
}

/// Encoding a nonempty string through the URO block: the dedicated tag on
/// top, 15-bit delta units folded below, zero-padded.
pub open spec fn spec_encode_special(s: Seq<char>, n: nat) -> Result<nat, EncodeError> {
    let cap = special_slots(n);
    let pre = uro_prefix(s);
    if pre < s.len() && pre < cap {
        Err(EncodeError::MissingFromPage(s[pre]))
    } else if s.len() > cap {
        Err(EncodeError::TooLong)
    } else {
        Ok((stored_tag(URO_PAGE as int, n) * pow2(coding_bits(n)) + padded(15, uro_units(s), cap)
            * pow2((coding_bits(n) - 15 * cap) as nat)) as nat)
    }
}

/// What `encode` returns: the empty string is 0; a first URO character
/// selects delta mode when the width has room for 15-bit units; otherwise
/// the first character's page drives a 6-bit table encoding.
pub open spec fn spec_encode(s: Seq<char>, n: nat) -> Result<nat, EncodeError>
    recommends
        valid_width(n),
{
    if s.len() == 0 {
        Ok(0)
    } else if special_slots(n) > 0 && in_uro(s[0]) {
        spec_encode_special(s, n)
    } else {
        match spec_page_of(s[0]) {
            None => Err(EncodeError::NoCodePageFor(s[0])),
            Some(p) => {
                if !page_available(p, n) {
                    Err(EncodeError::PageUnavailable(p as usize))
                } else {
                    spec_encode_table(s, p, n)
                }
            },
        }
    }
}

/// What a successful table encoding needed: every character codable in the
/// page, and no more of them than the width's capacity.
pub proof fn lemma_table_ok(s: Seq<char>, p: int, n: nat)
    requires
        0 <= p,
        spec_encode_table(s, p, n) is Ok,
    ensures
        s.len() <= char_slots(n),
        forall|j: int| 0 <= j < s.len() ==> spec_code_of(p, #[trigger] s[j]) is Some,
        units_in_range(6, table_codes(s, p)),
        spec_encode_table(s, p, n)->Ok_0 == stored_tag(p, n) * pow2(coding_bits(n)) + padded(
            6,
            table_codes(s, p),
            char_slots(n),
        ),
{
    lemma_table_prefix(s, p);
    assert(table_prefix(s, p) == s.len());
    vstd::arithmetic::mul::lemma_mul_nonnegative(stored_tag(p, n), pow2(coding_bits(n)) as int);
    assert forall|j: int| 0 <= j < table_codes(s, p).len() implies 0 < #[trigger] table_codes(
        s,
        p,
    )[j] < pow2(6) by {
        crate::pages::lemma_code_scan_some(p, s[j], 1);
        crate::pages::lemma_page_facts(p);
        vstd::arithmetic::power2::lemma2_to64();
    }
}

/// What a successful URO encoding needed: every character in the block, and
/// no more of them than the width's 15-bit capacity.
pub proof fn lemma_special_ok(s: Seq<char>, n: nat)
    requires
        spec_encode_special(s, n) is Ok,
    ensures
        s.len() <= special_slots(n),
        forall|j: int| 0 <= j < s.len() ==> in_uro(#[trigger] s[j]),
        units_in_range(15, uro_units(s)),
        spec_encode_special(s, n)->Ok_0 == stored_tag(URO_PAGE as int, n) * pow2(coding_bits(n))
            + padded(15, uro_units(s), special_slots(n)) * pow2(
            (coding_bits(n) - 15 * special_slots(n)) as nat,
        ),
{
    lemma_uro_prefix(s);
    assert(uro_prefix(s) == s.len());
    vstd::arithmetic::mul::lemma_mul_nonnegative(
        stored_tag(URO_PAGE as int, n),
        pow2(coding_bits(n)) as int,
    );
    vstd::arithmetic::mul::lemma_mul_nonnegative(
        padded(15, uro_units(s), special_slots(n)) as int,
        pow2((coding_bits(n) - 15 * special_slots(n)) as nat) as int,
    );
    assert forall|j: int| 0 <= j < uro_units(s).len() implies 0 < #[trigger] uro_units(s)[j]
        < pow2(15) by {
        assert(in_uro(s[j]));
        vstd::arithmetic::power2::lemma2_to64();
    }
}

/// Every successful encoding fits in the width's bits.
pub proof fn lemma_spec_encode_bound(s: Seq<char>, n: nat)
    requires
        valid_width(n),
        spec_encode(s, n) is Ok,
    ensures
        spec_encode(s, n)->Ok_0 < pow2(n),
{
    crate::width::lemma_width_facts(n);
    lemma_pow2_pos(n);
    lemma_pow2_adds(tag_bits(n), coding_bits(n));
    let cb = coding_bits(n);
    let tb = tag_bits(n);
    if s.len() == 0 {
    } else if special_slots(n) > 0 && in_uro(s[0]) {
        lemma_special_ok(s, n);
        let cap = special_slots(n);
        let t = stored_tag(URO_PAGE as int, n);
        let pay = padded(15, uro_units(s), cap) * pow2((cb - 15 * cap) as nat);
        crate::units::lemma_padded_bound(15, uro_units(s), cap);
        lemma_pow2_adds(15 * cap, (cb - 15 * cap) as nat);
        lemma_pow2_pos((cb - 15 * cap) as nat);
        vstd::arithmetic::mul::lemma_mul_strict_inequality(
            padded(15, uro_units(s), cap) as int,
            pow2(15 * cap) as int,
            pow2((cb - 15 * cap) as nat) as int,
        );
        assert(pay < pow2(cb));
        assert(0 <= t && t < pow2(tb)) by {
            vstd::arithmetic::power2::lemma2_to64();
        }
        assert(t * pow2(cb) + pay < pow2(tb) * pow2(cb)) by (nonlinear_arith)
            requires
                0 <= t,
                t < pow2(tb),
                pay < pow2(cb),
        ;
    } else {
        let p = spec_page_of(s[0])->Some_0;
        crate::pages::lemma_page_scan_some(s[0], 0);
        lemma_table_ok(s, p, n);
        let cap = char_slots(n);
        let t = stored_tag(p, n);
        let pay = padded(6, table_codes(s, p), cap);
        crate::units::lemma_padded_bound(6, table_codes(s, p), cap);
        assert(pay < pow2(cb));
        assert(0 <= t && t < pow2(tb)) by {
            vstd::arithmetic::power2::lemma2_to64();
        }
        assert(t * pow2(cb) + pay < pow2(tb) * pow2(cb)) by (nonlinear_arith)
            requires
                0 <= t,
                t < pow2(tb),
                pay < pow2(cb),
        ;
    }
}

/// An executable encode result agrees with a specified one.
pub open spec fn encode_result_matches(r: Result<u128, EncodeError>, w: Result<
    nat,
    EncodeError,
>) -> bool {
    match (r, w) {
        (Ok(v), Ok(x)) => v as nat == x,
        (Err(e), Err(f)) => e == f,
        _ => false,
    }
}

/// Encode a nonempty-or-empty string through page `p` with 6-bit codes.
fn encode_table(chars: &Vec<char>, p: usize, n: usize) -> (r: Result<u128, EncodeError>)
    requires
        valid_width(n as nat),
        p < 16,
    ensures
        encode_result_matches(r, spec_encode_table(chars@, p as int, n as nat)),
{
    let ghost s = chars@;
    let ghost gn = n as nat;
    let ghost gp = p as int;
    proof {
        crate::width::lemma_width_facts(gn);
        crate::width::lemma_pow2_high();
        vstd::arithmetic::power2::lemma2_to64();
        lemma_table_prefix(s, gp);
    }
    let cap = crate::width::char_slots_of(n);
    let tb = crate::width::tag_bits_of(n);
    let tag: usize = if tb == 2 {
        p / 4
    } else {
        p
    };
    let mut out: u128 = tag as u128;
    let mut i: usize = 0;
    proof {
        assert(table_codes(s.take(0), gp) =~= Seq::<nat>::empty());
        assert(out as nat == stored_tag(gp, gn) * pow2(0) + 0) by (nonlinear_arith)
            requires
                out as nat == stored_tag(gp, gn),
                pow2(0) == 1,
        ;
    }
    while i < chars.len()
        invariant
            valid_width(gn),
            gn == n,
            gp == p,
            p < 16,
            s == chars@,
            cap == char_slots(gn),
            i <= chars.len(),
            i <= cap,
            tag as int == stored_tag(gp, gn),
            forall|j: int| 0 <= j < i ==> spec_code_of(gp, #[trigger] s[j]) is Some,
            units_in_range(6, table_codes(s.take(i as int), gp)),
            out as nat == stored_tag(gp, gn) * pow2((6 * i) as nat) + fold_units(
                6,
                table_codes(s.take(i as int), gp),
            ),
            (out as nat) < pow2((tag_bits(gn) + 6 * i) as nat),
        decreases chars.len() - i,
    {
        proof {
            crate::width::lemma_width_facts(gn);
            lemma_table_prefix(s, gp);
        }
        if i == cap {
            return Err(EncodeError::TooLong);
        }
        match crate::pages::code_of(p, chars[i]) {
            None => {
                return Err(EncodeError::MissingFromPage(chars[i]));
            },
            Some(c) => {
                let ghost cs = table_codes(s.take(i as int), gp);
                proof {
                    crate::pages::lemma_code_scan_some(gp, s[i as int], 1);
                    crate::pages::lemma_page_facts(gp);
                    assert(table_codes(s.take(i + 1 as int), gp) =~= cs.push(c as nat));
                    crate::units::lemma_fold_units_push(6, cs, c as nat);
                    vstd::arithmetic::power2::lemma2_to64();
                    lemma_pow2_adds((6 * i) as nat, 6);
                    lemma_pow2_adds((tag_bits(gn) + 6 * i) as nat, 6);
                    crate::width::lemma_pow2_high();
                    vstd::arithmetic::power2::lemma_pow2_strictly_increases(
                        (tag_bits(gn) + 6 * (i + 1)) as nat,
                        129,
                    );
                    assert((tag_bits(gn) + 6 * (i + 1)) as nat <= 128) by (nonlinear_arith)
                        requires
                            i + 1 <= cap,
                            tag_bits(gn) + 6 * char_slots(gn) == gn,
                            cap == char_slots(gn),
                            gn <= 128,
                    ;
                    assert(pow2((tag_bits(gn) + 6 * (i + 1)) as nat) <= pow2(128)) by {
                        if ((tag_bits(gn) + 6 * (i + 1)) as nat) < 128 {
                            vstd::arithmetic::power2::lemma_pow2_strictly_increases(
                                (tag_bits(gn) + 6 * (i + 1)) as nat,
                                128,
                            );
                        }
                    }
                    assert((out as nat) * 64 + (c as nat) < pow2((tag_bits(gn) + 6 * (i + 1)) as nat))
                        by (nonlinear_arith)
                        requires
                            (out as nat) < pow2((tag_bits(gn) + 6 * i) as nat),
                            (c as nat) < 64,
                            pow2((tag_bits(gn) + 6 * (i + 1)) as nat) == pow2(
                                (tag_bits(gn) + 6 * i) as nat,
                            ) * 64,
                    ;
                    assert((stored_tag(gp, gn) * pow2((6 * i) as nat) + fold_units(6, cs)) * 64
                        + c as nat == stored_tag(gp, gn) * pow2((6 * (i + 1)) as nat) + (fold_units(
                        6,
                        cs,
                    ) * pow2(6) + c as nat)) by (nonlinear_arith)
                        requires
                            pow2((6 * (i + 1)) as nat) == pow2((6 * i) as nat) * 64,
                            pow2(6) == 64,
                    ;
                }
                out = out * 64 + (c as u128);
                i = i + 1;
            },
        }
    }
    let ghost cs = table_codes(s, gp);
    proof {
        assert(s.take(i as int) =~= s);
        crate::width::lemma_width_facts(gn);
        lemma_table_prefix(s, gp);
        lemma_pow2_adds((6 * i) as nat, (6 * (cap - i)) as nat);
        lemma_pow2_adds((tag_bits(gn) + 6 * i) as nat, (6 * (cap - i)) as nat);
        crate::width::lemma_pow2_high();
        lemma_pow2_pos((6 * (cap - i)) as nat);
        assert((tag_bits(gn) + 6 * i) + 6 * (cap - i) == gn) by (nonlinear_arith)
            requires
                i <= cap,
                tag_bits(gn) + 6 * char_slots(gn) == gn,
                cap == char_slots(gn),
        ;
        assert(pow2(gn) <= pow2(128)) by {
            if gn < 128 {
                vstd::arithmetic::power2::lemma_pow2_strictly_increases(gn, 128);
            }
        }
        assert(out as nat * pow2((6 * (cap - i)) as nat) < pow2(gn)) by (nonlinear_arith)
            requires
                (out as nat) < pow2((tag_bits(gn) + 6 * i) as nat),
                pow2((6 * (cap - i)) as nat) > 0,
                pow2((tag_bits(gn) + 6 * i) as nat) * pow2((6 * (cap - i)) as nat) == pow2(gn),
        ;
        assert((stored_tag(gp, gn) * pow2((6 * i) as nat) + fold_units(6, cs)) * pow2(
            (6 * (cap - i)) as nat,
        ) == stored_tag(gp, gn) * pow2((6 * cap) as nat) + fold_units(6, cs) * pow2(
            (6 * (cap - i)) as nat,
        )) by (nonlinear_arith)
            requires
                pow2((6 * i) as nat) * pow2((6 * (cap - i)) as nat) == pow2((6 * cap) as nat),
        ;
        assert(padded(6, cs, cap as nat) == fold_units(6, cs) * pow2((6 * (cap - i)) as nat));
        assert((6 * cap) as nat == coding_bits(gn));
    }
    let pad = crate::width::pow2_u128(6 * (cap - i));
    Ok(out * pad)
}

/// Encode a string through the URO block with 15-bit delta units.
fn encode_special(chars: &Vec<char>, n: usize) -> (r: Result<u128, EncodeError>)
    requires
        valid_width(n as nat),
        special_slots(n as nat) > 0,
    ensures
        encode_result_matches(r, spec_encode_special(chars@, n as nat)),
{
    let ghost s = chars@;
    let ghost gn = n as nat;
    proof {
        crate::width::lemma_width_facts(gn);
        crate::width::lemma_pow2_high();
        vstd::arithmetic::power2::lemma2_to64();
        lemma_uro_prefix(s);
    }
    let cap = crate::width::special_slots_of(n);
    let tb = crate::width::tag_bits_of(n);
    let tag: usize = if tb == 2 {
        URO_PAGE / 4
    } else {
        URO_PAGE
    };
    let mut out: u128 = tag as u128;
    let mut i: usize = 0;
    proof {
        assert(uro_units(s.take(0)) =~= Seq::<nat>::empty());
        assert(out as nat == stored_tag(URO_PAGE as int, gn) * pow2(0) + 0) by (nonlinear_arith)
            requires
                out as nat == stored_tag(URO_PAGE as int, gn),
                pow2(0) == 1,
        ;
    }
    while i < chars.len()
        invariant
            valid_width(gn),
            gn == n,
            special_slots(gn) > 0,
            s == chars@,
            cap == special_slots(gn),
            i <= chars.len(),
            i <= cap,
            forall|j: int| 0 <= j < i ==> in_uro(#[trigger] s[j]),
            units_in_range(15, uro_units(s.take(i as int))),
            out as nat == stored_tag(URO_PAGE as int, gn) * pow2((15 * i) as nat) + fold_units(
                15,
                uro_units(s.take(i as int)),
            ),
            (out as nat) < pow2((tag_bits(gn) + 15 * i) as nat),
        decreases chars.len() - i,
    {
        proof {
            crate::width::lemma_width_facts(gn);
            lemma_uro_prefix(s);
        }
        if i == cap {
            return Err(EncodeError::TooLong);
        }
        match crate::pages::chinese_15bit_delta(chars[i]) {
            None => {
                return Err(EncodeError::MissingFromPage(chars[i]));
            },
            Some(d) => {
                let ghost us = uro_units(s.take(i as int));
                let ghost u = (uro_delta(s[i as int]) + 1) as nat;
                proof {
                    assert(u <= 0x5200);
                    assert(uro_units(s.take(i + 1 as int)) =~= us.push(u));
                    crate::units::lemma_fold_units_push(15, us, u);
                    vstd::arithmetic::power2::lemma2_to64();
                    lemma_pow2_adds((15 * i) as nat, 15);
                    lemma_pow2_adds((tag_bits(gn) + 15 * i) as nat, 15);
                    crate::width::lemma_pow2_high();
                    assert(((tag_bits(gn) + 15 * (i + 1)) as nat) <= 128) by (nonlinear_arith)
                        requires
                            i + 1 <= cap,
                            tag_bits(gn) + coding_bits(gn) == gn,
                            15 * special_slots(gn) <= coding_bits(gn),
                            cap == special_slots(gn),
                            gn <= 128,
                    ;
                    assert(pow2((tag_bits(gn) + 15 * (i + 1)) as nat) <= pow2(128)) by {
                        if ((tag_bits(gn) + 15 * (i + 1)) as nat) < 128 {
                            vstd::arithmetic::power2::lemma_pow2_strictly_increases(
                                (tag_bits(gn) + 15 * (i + 1)) as nat,
                                128,
                            );
                        }
                    }
                    assert((out as nat) * 0x8000 + u < pow2((tag_bits(gn) + 15 * (i + 1)) as nat))
                        by (nonlinear_arith)
                        requires
                            (out as nat) < pow2((tag_bits(gn) + 15 * i) as nat),
                            u < 0x8000,
                            pow2((tag_bits(gn) + 15 * (i + 1)) as nat) == pow2(
                                (tag_bits(gn) + 15 * i) as nat,
                            ) * 0x8000,
                    ;
                    assert((stored_tag(URO_PAGE as int, gn) * pow2((15 * i) as nat) + fold_units(
                        15,
                        us,
                    )) * 0x8000 + u == stored_tag(URO_PAGE as int, gn) * pow2(
                        (15 * (i + 1)) as nat,
                    ) + (fold_units(15, us) * pow2(15) + u)) by (nonlinear_arith)
                        requires
                            pow2((15 * (i + 1)) as nat) == pow2((15 * i) as nat) * 0x8000,
                            pow2(15) == 0x8000,
                    ;
                }
                out = out * 0x8000 + (d as u128 + 1);
                i = i + 1;
            },
        }
    }
    let ghost us = uro_units(s);
    proof {
        assert(s.take(i as int) =~= s);
        crate::width::lemma_width_facts(gn);
        lemma_uro_prefix(s);
        lemma_pow2_adds((15 * i) as nat, (coding_bits(gn) - 15 * i) as nat);
        lemma_pow2_adds((tag_bits(gn) + 15 * i) as nat, (coding_bits(gn) - 15 * i) as nat);
        lemma_pow2_adds((15 * (cap - i)) as nat, (coding_bits(gn) - 15 * cap) as nat);
        crate::width::lemma_pow2_high();
        lemma_pow2_pos((coding_bits(gn) - 15 * i) as nat);
        assert(15 * i <= 15 * cap) by (nonlinear_arith)
            requires
                i <= cap,
        ;
        assert(15 * (cap - i) + (coding_bits(gn) - 15 * cap) == coding_bits(gn) - 15 * i)
            by (nonlinear_arith)
            requires
                i <= cap,
                15 * cap <= coding_bits(gn),
        ;
        assert(pow2(gn) <= pow2(128)) by {
            if gn < 128 {
                vstd::arithmetic::power2::lemma_pow2_strictly_increases(gn, 128);
            }
        }
        assert((out as nat) * pow2((coding_bits(gn) - 15 * i) as nat) < pow2(gn))
            by (nonlinear_arith)
            requires
                (out as nat) < pow2((tag_bits(gn) + 15 * i) as nat),
                pow2((coding_bits(gn) - 15 * i) as nat) > 0,
                pow2((tag_bits(gn) + 15 * i) as nat) * pow2((coding_bits(gn) - 15 * i) as nat)
                    == pow2(gn),
                pow2(gn) <= pow2(128),
        ;
        assert((stored_tag(URO_PAGE as int, gn) * pow2((15 * i) as nat) + fold_units(15, us))
            * pow2((coding_bits(gn) - 15 * i) as nat) == stored_tag(URO_PAGE as int, gn) * pow2(
            coding_bits(gn),
        ) + fold_units(15, us) * pow2((coding_bits(gn) - 15 * i) as nat)) by (nonlinear_arith)
            requires
                pow2((15 * i) as nat) * pow2((coding_bits(gn) - 15 * i) as nat) == pow2(
                    coding_bits(gn),
                ),
        ;
        assert(padded(15, us, cap as nat) * pow2((coding_bits(gn) - 15 * cap) as nat) == fold_units(
            15,
            us,
        ) * pow2((coding_bits(gn) - 15 * i) as nat)) by (nonlinear_arith)
            requires
                padded(15, us, cap as nat) == fold_units(15, us) * pow2((15 * (cap - i)) as nat),
                pow2((15 * (cap - i)) as nat) * pow2((coding_bits(gn) - 15 * cap) as nat) == pow2(
                    (coding_bits(gn) - 15 * i) as nat,
                ),
        ;
    }
    let pad = crate::width::pow2_u128(crate::width::coding_bits_of(n) - 15 * i);
    Ok(out * pad)
}

/// Encode a string into the low `n` bits of a `u128`: empty strings are 0,
/// a first URO character selects delta mode where the width allows it, and
/// any other first character selects its page.
pub fn encode_value(chars: &Vec<char>, n: usize) -> (r: Result<u128, EncodeError>)
    requires
        valid_width(n as nat),
    ensures
        encode_result_matches(r, spec_encode(chars@, n as nat)),
{
    if chars.len() == 0 {
        return Ok(0);
    }
    let first = chars[0];
    if crate::width::special_slots_of(n) > 0 && crate::pages::chinese_15bit_delta(
        first,
    ).is_some() {
        return encode_special(chars, n);
    }
    match crate::pages::page_of(first) {
        None => Err(EncodeError::NoCodePageFor(first)),
        Some(p) => {
            proof {
                crate::pages::lemma_page_scan_some(first, 0);
            }
            let tb = crate::width::tag_bits_of(n);
            if tb == 2 && p % 4 != 0 {
                Err(EncodeError::PageUnavailable(p))
            } else {
                encode_table(chars, p, n)
            }
        },
    }
}

/// Relies on std's `char::from_u32`: it returns `Some` exactly on Unicode
/// scalar values (everything except the surrogate range and values past the
/// last code point), and the character it returns casts back to the same
/// scalar.
pub assume_specification[ char::from_u32 ](v: u32) -> (r: Option<char>)
    ensures
        (v < 0xd800 || (0xe000 <= v && v <= 0x10ffff)) <==> r is Some,
        r is Some ==> r->Some_0 as u32 == v,
;

/// The URO character a nonzero 15-bit unit decodes to.
pub open spec fn uro_char(u: nat) -> char {
    ((URO_LO + u - 1) as u32) as char
}

/// The characters still to come out of a decode iterator whose accumulator
/// holds `acc` left-justified in 128 bits: `rem` units at most, each pulled
/// off the top, stopping at a zero unit.
pub open spec fn iter_chars(tag: int, acc: nat, rem: nat) -> Seq<char>
    decreases rem,
{
    if rem == 0 {
        Seq::empty()
    } else if tag == URO_PAGE as int {
        let u = acc / pow2(113);
        if u == 0 {
            Seq::empty()
        } else {
            seq![uro_char(u)] + iter_chars(tag, (acc % pow2(113)) * pow2(15), (rem - 1) as nat)
        }
    } else {
        let u = acc / pow2(122);
        if u == 0 {
            Seq::empty()
        } else {
            seq![page_entry(tag, u as int)] + iter_chars(
                tag,
                (acc % pow2(122)) * pow2(6),
                (rem - 1) as nat,
            )
        }
    }
}

/// A pull-based decoder: yields one character per call to [`Self::next`],
/// keeping only the (normalized) tag, the shifting accumulator, and the
/// number of units the width still allows.
pub struct DecodeSixbitIter {
    tag: usize,
    tmp: u128,
    rem: usize,
}

impl View for DecodeSixbitIter {
    type V = Seq<char>;

    closed spec fn view(&self) -> Seq<char> {
        iter_chars(self.tag as int, self.tmp as nat, self.rem as nat)
    }
}

impl DecodeSixbitIter {
    /// The next character of the packed string, or `None` past its end.
    pub fn next(&mut self) -> (r: Option<char>)
        ensures
            match r {
                Some(c) => old(self)@.len() > 0 && c == old(self)@[0] && final(self)@ == old(
                    self,
                )@.drop_first(),
                None => old(self)@.len() == 0 && *final(self) == *old(self),
            },
    {
        proof {
            crate::width::lemma_pow2_high();
            vstd::arithmetic::power2::lemma2_to64();
            vstd::arithmetic::power2::lemma2_to64_rest();
            lemma_pow2_adds(113, 15);
            lemma_pow2_adds(122, 6);
            lemma_pow2_pos(113);
            lemma_pow2_pos(122);
        }
        if self.rem == 0 {
            return None;
        }
        if self.tag == URO_PAGE {
            let p113 = crate::width::pow2_u128(113);
            let u = self.tmp / p113;
            proof {
                vstd::arithmetic::div_mod::lemma_multiply_divide_lt(
                    self.tmp as int,
                    pow2(113) as int,
                    pow2(15) as int,
                );
            }
            if u == 0 {
                return None;
            }
            let scalar: u32 = URO_LO + (u as u32) - 1;
            let c = char::from_u32(scalar).unwrap();
            proof {
                vstd::utf8::char_u32_cast(c, scalar);
                vstd::arithmetic::mul::lemma_mul_strict_inequality(
                    (self.tmp % p113) as int,
                    pow2(113) as int,
                    pow2(15) as int,
                );
                assert((self.tmp % p113) as nat * pow2(15) < pow2(128));
            }
            self.tmp = (self.tmp % p113) * 0x8000;
            self.rem = self.rem - 1;
            proof {
                assert(old(self)@ == seq![c] + self@);
                assert((seq![c] + self@).drop_first() =~= self@);
            }
            Some(c)
        } else {
            let p122 = crate::width::pow2_u128(122);
            let u = self.tmp / p122;
            proof {
                vstd::arithmetic::div_mod::lemma_multiply_divide_lt(
                    self.tmp as int,
                    pow2(122) as int,
                    pow2(6) as int,
                );
            }
            if u == 0 {
                return None;
            }
            let c = crate::pages::char_of(self.tag, u as usize);
            proof {
                vstd::arithmetic::mul::lemma_mul_strict_inequality(
                    (self.tmp % p122) as int,
                    pow2(122) as int,
                    pow2(6) as int,
                );
                assert((self.tmp % p122) as nat * pow2(6) < pow2(128));
            }
            self.tmp = (self.tmp % p122) * 64;
            self.rem = self.rem - 1;
            proof {
                assert(old(self)@ == seq![c] + self@);
                assert((seq![c] + self@).drop_first() =~= self@);
            }
            Some(c)
        }
    }

    /// Pull every remaining character into a vector.
    pub fn into_vec(self) -> (v: Vec<char>)
        ensures
            v@ == self@,
    {
        let ghost orig = self@;
        let mut it = self;
        let mut v: Vec<char> = Vec::new();
        loop
            invariant
                v@ + it@ == orig,
            ensures
                it@.len() == 0,
                v@ + it@ == orig,
            decreases it@.len(),
        {
            match it.next() {
                Some(c) => {
                    let ghost it1 = it@;
                    v.push(c);
                    proof {
                        assert(v@ + it1 =~= orig);
                    }
                },
                None => {
                    break ;
                },
            }
        }
        proof {
            assert(v@ =~= orig);
        }
        v
    }
}

/// In 6-bit mode the iterator's characters are the extracted units looked
/// up in the tag's page.
pub proof fn lemma_iter_chars_table(tag: int, acc: nat, rem: nat)
    requires
        tag != URO_PAGE as int,
        acc < pow2(128),
    ensures
        iter_chars(tag, acc, rem) == crate::units::extract_units(6, acc, rem).map_values(
            |u: nat| page_entry(tag, u as int),
        ),
    decreases rem,
{
    let f = |u: nat| page_entry(tag, u as int);
    lemma_pow2_pos(122);
    if rem == 0 {
        assert(iter_chars(tag, acc, rem) =~= crate::units::extract_units(6, acc, rem).map_values(
            f,
        ));
    } else {
        let u = acc / pow2(122);
        if u == 0 {
            assert(iter_chars(tag, acc, rem) =~= crate::units::extract_units(
                6,
                acc,
                rem,
            ).map_values(f));
        } else {
            let acc2 = (acc % pow2(122)) * pow2(6);
            lemma_pow2_adds(122, 6);
            lemma_pow2_pos(6);
            vstd::arithmetic::mul::lemma_mul_strict_inequality(
                (acc % pow2(122)) as int,
                pow2(122) as int,
                pow2(6) as int,
            );
            lemma_iter_chars_table(tag, acc2, (rem - 1) as nat);
            assert(iter_chars(tag, acc, rem) =~= crate::units::extract_units(
                6,
                acc,
                rem,
            ).map_values(f));
        }
    }
}

/// In delta mode the iterator's characters are the extracted units mapped
/// back into the URO block.
pub proof fn lemma_iter_chars_special(acc: nat, rem: nat)
    requires
        acc < pow2(128),
    ensures
        iter_chars(URO_PAGE as int, acc, rem) == crate::units::extract_units(
            15,
            acc,
            rem,
        ).map_values(|u: nat| uro_char(u)),
    decreases rem,
{
    let f = |u: nat| uro_char(u);
    lemma_pow2_pos(113);
    if rem == 0 {
        assert(iter_chars(URO_PAGE as int, acc, rem) =~= crate::units::extract_units(
            15,
            acc,
            rem,
        ).map_values(f));
    } else {
        let u = acc / pow2(113);
        if u == 0 {
            assert(iter_chars(URO_PAGE as int, acc, rem) =~= crate::units::extract_units(
                15,
                acc,
                rem,
            ).map_values(f));
        } else {
            let acc2 = (acc % pow2(113)) * pow2(15);
            lemma_pow2_adds(113, 15);
            lemma_pow2_pos(15);
            vstd::arithmetic::mul::lemma_mul_strict_inequality(
                (acc % pow2(113)) as int,
                pow2(113) as int,
                pow2(15) as int,
            );
            lemma_iter_chars_special(acc2, (rem - 1) as nat);
            assert(iter_chars(URO_PAGE as int, acc, rem) =~= crate::units::extract_units(
                15,
                acc,
                rem,
            ).map_values(f));
        }
    }
}

/// A decode iterator yields at most `rem` characters.
pub proof fn lemma_iter_chars_len(tag: int, acc: nat, rem: nat)
    ensures
        iter_chars(tag, acc, rem).len() <= rem,
    decreases rem,
{
    if rem > 0 {
        if tag == URO_PAGE as int {
            lemma_iter_chars_len(tag, (acc % pow2(113)) * pow2(15), (rem - 1) as nat);
        } else {
            lemma_iter_chars_len(tag, (acc % pow2(122)) * pow2(6), (rem - 1) as nat);
        }
    }
}

/// The string a width-`n` packed value decodes to.
pub open spec fn spec_decode(v: nat, n: nat) -> Seq<char>
    recommends
        valid_width(n),
        v < pow2(n),
{
    let cb = coding_bits(n);
    let t = v / pow2(cb);
    let tag = if tag_bits(n) == 2 {
        t * 4
    } else {
        t
    };
    iter_chars(tag as int, (v % pow2(cb)) * pow2((128 - cb) as nat), char_slots(n))
}

/// Start decoding the low `n` bits of `v`: normalize the tag to 4 bits and
/// left-justify the coding region in the accumulator.
pub fn decode_value(v: u128, n: usize) -> (it: DecodeSixbitIter)
    requires
        valid_width(n as nat),
        (v as nat) < pow2(n as nat),
    ensures
        it@ == spec_decode(v as nat, n as nat),
{
    let ghost gn = n as nat;
    proof {
        crate::width::lemma_width_facts(gn);
        crate::width::lemma_pow2_high();
        lemma_pow2_adds(coding_bits(gn), tag_bits(gn));
        lemma_pow2_pos(coding_bits(gn));
    }
    let cb = crate::width::coding_bits_of(n);
    let tb = crate::width::tag_bits_of(n);
    let pcb = crate::width::pow2_u128(cb);
    proof {
        vstd::arithmetic::div_mod::lemma_multiply_divide_lt(
            v as int,
            pow2(cb as nat) as int,
            pow2(tag_bits(gn)) as int,
        );
        assert(pow2(tag_bits(gn)) <= 16) by {
            vstd::arithmetic::power2::lemma2_to64();
        }
        lemma_pow2_adds(cb as nat, (128 - cb) as nat);
        lemma_pow2_pos((128 - cb) as nat);
        vstd::arithmetic::mul::lemma_mul_strict_inequality(
            (v % pcb) as int,
            pow2(cb as nat) as int,
            pow2((128 - cb) as nat) as int,
        );
        assert(((v % pcb) as nat) * pow2((128 - cb) as nat) < pow2(128));
    }
    let t = (v / pcb) as usize;
    let tag: usize = if tb == 2 {
        t * 4
    } else {
        t
    };
    let tmp = (v % pcb) * crate::width::pow2_u128(128 - cb);
    let rem = crate::width::char_slots_of(n);
    DecodeSixbitIter { tag, tmp, rem }
}

} // verus!
