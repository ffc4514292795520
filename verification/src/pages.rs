//! The code-page registry: eight fixed 64-entry pages, each an ascending
//! selection of one script, with entry 0 reserved as the terminator and
//! unassigned slots filled with a sentinel; lookup by character and by
//! code; and the URO ideograph block handled by arithmetic delta.

use vstd::prelude::*;

verus! {

/// Fills unassigned table slots; never a legitimate input character.
pub const SENTINEL: char = '\u{ffff}';

/// Entry `i` of the latin page.
pub open spec fn latin_entry(i: int) -> char {
    if i == 0 {
        '\u{0}'
    } else if i == 1 {
        '0'
    } else if i == 2 {
        '1'
    } else if i == 3 {
        '2'
    } else if i == 4 {
        '3'
    } else if i == 5 {
        '4'
    } else if i == 6 {
        '5'
    } else if i == 7 {
        '6'
    } else if i == 8 {
        '7'
    } else if i == 9 {
        '8'
    } else if i == 10 {
        '9'
    } else if i == 11 {
        'A'
    } else if i == 12 {
        'B'
    } else if i == 13 {
        'C'
    } else if i == 14 {
        'D'
    } else if i == 15 {
        'E'
    } else if i == 16 {
        'F'
    } else if i == 17 {
        'G'
    } else if i == 18 {
        'H'
    } else if i == 19 {
        'I'
    } else if i == 20 {
        'J'
    } else if i == 21 {
        'K'
    } else if i == 22 {
        'L'
    } else if i == 23 {
        'M'
    } else if i == 24 {
        'N'
    } else if i == 25 {
        'O'
    } else if i == 26 {
        'P'
    } else if i == 27 {
        'Q'
    } else if i == 28 {
        'R'
    } else if i == 29 {
        'S'
    } else if i == 30 {
        'T'
    } else if i == 31 {
        'U'
    } else if i == 32 {
        'V'
    } else if i == 33 {
        'W'
    } else if i == 34 {
        'X'
    } else if i == 35 {
        'Y'
    } else if i == 36 {
        'Z'
    } else if i == 37 {
        '_'
    } else if i == 38 {
        'a'
    } else if i == 39 {
        'b'
    } else if i == 40 {
        'c'
    } else if i == 41 {
        'd'
    } else if i == 42 {
        'e'
    } else if i == 43 {
        'f'
    } else if i == 44 {
        'g'
    } else if i == 45 {
        'h'
    } else if i == 46 {
        'i'
    } else if i == 47 {
        'j'
    } else if i == 48 {
        'k'
    } else if i == 49 {
        'l'
    } else if i == 50 {
        'm'
    } else if i == 51 {
        'n'
    } else if i == 52 {
        'o'
    } else if i == 53 {
        'p'
    } else if i == 54 {
        'q'
    } else if i == 55 {
        'r'
    } else if i == 56 {
        's'
    } else if i == 57 {
        't'
    } else if i == 58 {
        'u'
    } else if i == 59 {
        'v'
    } else if i == 60 {
        'w'
    } else if i == 61 {
        'x'
    } else if i == 62 {
        'y'
    } else if i == 63 {
        'z'
    } else {
        SENTINEL
    }
}

fn latin_char(i: usize) -> (c: char)
    ensures
        c == latin_entry(i as int),
{
    match i {
        0 => '\u{0}',
        1 => '0',
        2 => '1',
        3 => '2',
        4 => '3',
        5 => '4',
        6 => '5',
        7 => '6',
        8 => '7',
        9 => '8',
        10 => '9',
        11 => 'A',
        12 => 'B',
        13 => 'C',
        14 => 'D',
        15 => 'E',
        16 => 'F',
        17 => 'G',
        18 => 'H',
        19 => 'I',
        20 => 'J',
        21 => 'K',
        22 => 'L',
        23 => 'M',
        24 => 'N',
        25 => 'O',
        26 => 'P',
        27 => 'Q',
        28 => 'R',
        29 => 'S',
        30 => 'T',
        31 => 'U',
        32 => 'V',
        33 => 'W',
        34 => 'X',
        35 => 'Y',
        36 => 'Z',
        37 => '_',
        38 => 'a',
        39 => 'b',
        40 => 'c',
        41 => 'd',
        42 => 'e',
        43 => 'f',
        44 => 'g',
        45 => 'h',
        46 => 'i',
        47 => 'j',
        48 => 'k',
        49 => 'l',
        50 => 'm',
        51 => 'n',
        52 => 'o',
        53 => 'p',
        54 => 'q',
        55 => 'r',
        56 => 's',
        57 => 't',
        58 => 'u',
        59 => 'v',
        60 => 'w',
        61 => 'x',
        62 => 'y',
        63 => 'z',
        _ => SENTINEL,
    }
}

/// Shape of the latin page: entries `1 ..= 63` are real characters in
/// strictly ascending scalar order; everything after them is the sentinel.
#[verifier::rlimit(60)]
pub proof fn lemma_latin_facts()
    ensures
        forall|i: int| 1 <= i < 63 ==> ((#[trigger] latin_entry(i)) as int) < (latin_entry(i + 1) as int),
        forall|i: int| 63 < i ==> latin_entry(i) == SENTINEL,
        latin_entry(0) == '\u{0}',
        forall|i: int| 1 <= i <= 63 ==> 0 < ((#[trigger] latin_entry(i)) as int) < 0xffff,
{
}

/// Entry `i` of the greek page.
pub open spec fn greek_entry(i: int) -> char {
    if i == 0 {
        '\u{0}'
    } else if i == 1 {
        '\u{386}'
    } else if i == 2 {
        '\u{388}'
    } else if i == 3 {
        '\u{389}'
    } else if i == 4 {
        '\u{38a}'
    } else if i == 5 {
        '\u{38c}'
    } else if i == 6 {
        '\u{38e}'
    } else if i == 7 {
        '\u{38f}'
    } else if i == 8 {
        '\u{391}'
    } else if i == 9 {
        '\u{392}'
    } else if i == 10 {
        '\u{393}'
    } else if i == 11 {
        '\u{394}'
    } else if i == 12 {
        '\u{395}'
    } else if i == 13 {
        '\u{396}'
    } else if i == 14 {
        '\u{397}'
    } else if i == 15 {
        '\u{398}'
    } else if i == 16 {
        '\u{399}'
    } else if i == 17 {
        '\u{39a}'
    } else if i == 18 {
        '\u{39b}'
    } else if i == 19 {
        '\u{39c}'
    } else if i == 20 {
        '\u{39d}'
    } else if i == 21 {
        '\u{39e}'
    } else if i == 22 {
        '\u{39f}'
    } else if i == 23 {
        '\u{3a0}'
    } else if i == 24 {
        '\u{3a1}'
    } else if i == 25 {
        '\u{3a3}'
    } else if i == 26 {
        '\u{3a4}'
    } else if i == 27 {
        '\u{3a5}'
    } else if i == 28 {
        '\u{3a6}'
    } else if i == 29 {
        '\u{3a7}'
    } else if i == 30 {
        '\u{3a8}'
    } else if i == 31 {
        '\u{3a9}'
    } else if i == 32 {
        '\u{3ac}'
    } else if i == 33 {
        '\u{3ad}'
    } else if i == 34 {
        '\u{3ae}'
    } else if i == 35 {
        '\u{3af}'
    } else if i == 36 {
        '\u{3b1}'
    } else if i == 37 {
        '\u{3b2}'
    } else if i == 38 {
        '\u{3b3}'
    } else if i == 39 {
        '\u{3b4}'
    } else if i == 40 {
        '\u{3b5}'
    } else if i == 41 {
        '\u{3b6}'
    } else if i == 42 {
        '\u{3b7}'
    } else if i == 43 {
        '\u{3b8}'
    } else if i == 44 {
        '\u{3b9}'
    } else if i == 45 {
        '\u{3ba}'
    } else if i == 46 {
        '\u{3bb}'
    } else if i == 47 {
        '\u{3bc}'
    } else if i == 48 {
        '\u{3bd}'
    } else if i == 49 {
        '\u{3be}'
    } else if i == 50 {
        '\u{3bf}'
    } else if i == 51 {
        '\u{3c0}'
    } else if i == 52 {
        '\u{3c1}'
    } else if i == 53 {
        '\u{3c2}'
    } else if i == 54 {
        '\u{3c3}'
    } else if i == 55 {
        '\u{3c4}'
    } else if i == 56 {
        '\u{3c5}'
    } else if i == 57 {
        '\u{3c6}'
    } else if i == 58 {
        '\u{3c7}'
    } else if i == 59 {
        '\u{3c8}'
    } else if i == 60 {
        '\u{3c9}'
    } else if i == 61 {
        '\u{3cc}'
    } else if i == 62 {
        '\u{3cd}'
    } else if i == 63 {
        '\u{3ce}'
    } else {
        SENTINEL
    }
}

fn greek_char(i: usize) -> (c: char)
    ensures
        c == greek_entry(i as int),
{
    match i {
        0 => '\u{0}',
        1 => '\u{386}',
        2 => '\u{388}',
        3 => '\u{389}',
        4 => '\u{38a}',
        5 => '\u{38c}',
        6 => '\u{38e}',
        7 => '\u{38f}',
        8 => '\u{391}',
        9 => '\u{392}',
        10 => '\u{393}',
        11 => '\u{394}',
        12 => '\u{395}',
        13 => '\u{396}',
        14 => '\u{397}',
        15 => '\u{398}',
        16 => '\u{399}',
        17 => '\u{39a}',
        18 => '\u{39b}',
        19 => '\u{39c}',
        20 => '\u{39d}',
        21 => '\u{39e}',
        22 => '\u{39f}',
        23 => '\u{3a0}',
        24 => '\u{3a1}',
        25 => '\u{3a3}',
        26 => '\u{3a4}',
        27 => '\u{3a5}',
        28 => '\u{3a6}',
        29 => '\u{3a7}',
        30 => '\u{3a8}',
        31 => '\u{3a9}',
        32 => '\u{3ac}',
        33 => '\u{3ad}',
        34 => '\u{3ae}',
        35 => '\u{3af}',
        36 => '\u{3b1}',
        37 => '\u{3b2}',
        38 => '\u{3b3}',
        39 => '\u{3b4}',
        40 => '\u{3b5}',
        41 => '\u{3b6}',
        42 => '\u{3b7}',
        43 => '\u{3b8}',
        44 => '\u{3b9}',
        45 => '\u{3ba}',
        46 => '\u{3bb}',
        47 => '\u{3bc}',
        48 => '\u{3bd}',
        49 => '\u{3be}',
        50 => '\u{3bf}',
        51 => '\u{3c0}',
        52 => '\u{3c1}',
        53 => '\u{3c2}',
        54 => '\u{3c3}',
        55 => '\u{3c4}',
        56 => '\u{3c5}',
        57 => '\u{3c6}',
        58 => '\u{3c7}',
        59 => '\u{3c8}',
        60 => '\u{3c9}',
        61 => '\u{3cc}',
        62 => '\u{3cd}',
        63 => '\u{3ce}',
        _ => SENTINEL,
    }
}

/// Shape of the greek page: entries `1 ..= 63` are real characters in
/// strictly ascending scalar order; everything after them is the sentinel.
#[verifier::rlimit(60)]
pub proof fn lemma_greek_facts()
    ensures
        forall|i: int| 1 <= i < 63 ==> ((#[trigger] greek_entry(i)) as int) < (greek_entry(i + 1) as int),
        forall|i: int| 63 < i ==> greek_entry(i) == SENTINEL,
        greek_entry(0) == '\u{0}',
        forall|i: int| 1 <= i <= 63 ==> 0 < ((#[trigger] greek_entry(i)) as int) < 0xffff,
{
}

/// Entry `i` of the cyrillic page.
pub open spec fn cyrillic_entry(i: int) -> char {
    if i == 0 {
        '\u{0}'
    } else if i == 1 {
        '\u{410}'
    } else if i == 2 {
        '\u{411}'
    } else if i == 3 {
        '\u{412}'
    } else if i == 4 {
        '\u{413}'
    } else if i == 5 {
        '\u{414}'
    } else if i == 6 {
        '\u{415}'
    } else if i == 7 {
        '\u{416}'
    } else if i == 8 {
        '\u{417}'
    } else if i == 9 {
        '\u{418}'
    } else if i == 10 {
        '\u{419}'
    } else if i == 11 {
        '\u{41a}'
    } else if i == 12 {
        '\u{41b}'
    } else if i == 13 {
        '\u{41c}'
    } else if i == 14 {
        '\u{41d}'
    } else if i == 15 {
        '\u{41e}'
    } else if i == 16 {
        '\u{41f}'
    } else if i == 17 {
        '\u{420}'
    } else if i == 18 {
        '\u{421}'
    } else if i == 19 {
        '\u{422}'
    } else if i == 20 {
        '\u{423}'
    } else if i == 21 {
        '\u{424}'
    } else if i == 22 {
        '\u{425}'
    } else if i == 23 {
        '\u{426}'
    } else if i == 24 {
        '\u{427}'
    } else if i == 25 {
        '\u{428}'
    } else if i == 26 {
        '\u{429}'
    } else if i == 27 {
        '\u{42a}'
    } else if i == 28 {
        '\u{42b}'
    } else if i == 29 {
        '\u{42c}'
    } else if i == 30 {
        '\u{42d}'
    } else if i == 31 {
        '\u{42e}'
    } else if i == 32 {
        '\u{42f}'
    } else if i == 33 {
        '\u{430}'
    } else if i == 34 {
        '\u{431}'
    } else if i == 35 {
        '\u{432}'
    } else if i == 36 {
        '\u{433}'
    } else if i == 37 {
        '\u{434}'
    } else if i == 38 {
        '\u{435}'
    } else if i == 39 {
        '\u{436}'
    } else if i == 40 {
        '\u{437}'
    } else if i == 41 {
        '\u{438}'
    } else if i == 42 {
        '\u{439}'
    } else if i == 43 {
        '\u{43a}'
    } else if i == 44 {
        '\u{43b}'
    } else if i == 45 {
        '\u{43c}'
    } else if i == 46 {
        '\u{43d}'
    } else if i == 47 {
        '\u{43e}'
    } else if i == 48 {
        '\u{43f}'
    } else if i == 49 {
        '\u{440}'
    } else if i == 50 {
        '\u{441}'
    } else if i == 51 {
        '\u{442}'
    } else if i == 52 {
        '\u{443}'
    } else if i == 53 {
        '\u{444}'
    } else if i == 54 {
        '\u{445}'
    } else if i == 55 {
        '\u{446}'
    } else if i == 56 {
        '\u{447}'
    } else if i == 57 {
        '\u{448}'
    } else if i == 58 {
        '\u{449}'
    } else if i == 59 {
        '\u{44b}'
    } else if i == 60 {
        '\u{44c}'
    } else if i == 61 {
        '\u{44d}'
    } else if i == 62 {
        '\u{44e}'
    } else if i == 63 {
        '\u{44f}'
    } else {
        SENTINEL
    }
}

fn cyrillic_char(i: usize) -> (c: char)
    ensures
        c == cyrillic_entry(i as int),
{
    match i {
        0 => '\u{0}',
        1 => '\u{410}',
        2 => '\u{411}',
        3 => '\u{412}',
        4 => '\u{413}',
        5 => '\u{414}',
        6 => '\u{415}',
        7 => '\u{416}',
        8 => '\u{417}',
        9 => '\u{418}',
        10 => '\u{419}',
        11 => '\u{41a}',
        12 => '\u{41b}',
        13 => '\u{41c}',
        14 => '\u{41d}',
        15 => '\u{41e}',
        16 => '\u{41f}',
        17 => '\u{420}',
        18 => '\u{421}',
        19 => '\u{422}',
        20 => '\u{423}',
        21 => '\u{424}',
        22 => '\u{425}',
        23 => '\u{426}',
        24 => '\u{427}',
        25 => '\u{428}',
        26 => '\u{429}',
        27 => '\u{42a}',
        28 => '\u{42b}',
        29 => '\u{42c}',
        30 => '\u{42d}',
        31 => '\u{42e}',
        32 => '\u{42f}',
        33 => '\u{430}',
        34 => '\u{431}',
        35 => '\u{432}',
        36 => '\u{433}',
        37 => '\u{434}',
        38 => '\u{435}',
        39 => '\u{436}',
        40 => '\u{437}',
        41 => '\u{438}',
        42 => '\u{439}',
        43 => '\u{43a}',
        44 => '\u{43b}',
        45 => '\u{43c}',
        46 => '\u{43d}',
        47 => '\u{43e}',
        48 => '\u{43f}',
        49 => '\u{440}',
        50 => '\u{441}',
        51 => '\u{442}',
        52 => '\u{443}',
        53 => '\u{444}',
        54 => '\u{445}',
        55 => '\u{446}',
        56 => '\u{447}',
        57 => '\u{448}',
        58 => '\u{449}',
        59 => '\u{44b}',
        60 => '\u{44c}',
        61 => '\u{44d}',
        62 => '\u{44e}',
        63 => '\u{44f}',
        _ => SENTINEL,
    }
}

/// Shape of the cyrillic page: entries `1 ..= 63` are real characters in
/// strictly ascending scalar order; everything after them is the sentinel.
#[verifier::rlimit(60)]
pub proof fn lemma_cyrillic_facts()
    ensures
        forall|i: int| 1 <= i < 63 ==> ((#[trigger] cyrillic_entry(i)) as int) < (cyrillic_entry(i + 1) as int),
        forall|i: int| 63 < i ==> cyrillic_entry(i) == SENTINEL,
        cyrillic_entry(0) == '\u{0}',
        forall|i: int| 1 <= i <= 63 ==> 0 < ((#[trigger] cyrillic_entry(i)) as int) < 0xffff,
{
}

/// Entry `i` of the hebrew page.
pub open spec fn hebrew_entry(i: int) -> char {
    if i == 0 {
        '\u{0}'
    } else if i == 1 {
        '\u{5b0}'
    } else if i == 2 {
        '\u{5b1}'
    } else if i == 3 {
        '\u{5b2}'
    } else if i == 4 {
        '\u{5b3}'
    } else if i == 5 {
        '\u{5b4}'
    } else if i == 6 {
        '\u{5b5}'
    } else if i == 7 {
        '\u{5b6}'
    } else if i == 8 {
        '\u{5b7}'
    } else if i == 9 {
        '\u{5b8}'
    } else if i == 10 {
        '\u{5b9}'
    } else if i == 11 {
        '\u{5ba}'
    } else if i == 12 {
        '\u{5bb}'
    } else if i == 13 {
        '\u{5bc}'
    } else if i == 14 {
        '\u{5bd}'
    } else if i == 15 {
        '\u{5be}'
    } else if i == 16 {
        '\u{5bf}'
    } else if i == 17 {
        '\u{5c0}'
    } else if i == 18 {
        '\u{5c1}'
    } else if i == 19 {
        '\u{5c2}'
    } else if i == 20 {
        '\u{5c3}'
    } else if i == 21 {
        '\u{5c4}'
    } else if i == 22 {
        '\u{5c5}'
    } else if i == 23 {
        '\u{5c6}'
    } else if i == 24 {
        '\u{5c7}'
    } else if i == 25 {
        '\u{5d0}'
    } else if i == 26 {
        '\u{5d1}'
    } else if i == 27 {
        '\u{5d2}'
    } else if i == 28 {
        '\u{5d3}'
    } else if i == 29 {
        '\u{5d4}'
    } else if i == 30 {
        '\u{5d5}'
    } else if i == 31 {
        '\u{5d6}'
    } else if i == 32 {
        '\u{5d7}'
    } else if i == 33 {
        '\u{5d8}'
    } else if i == 34 {
        '\u{5d9}'
    } else if i == 35 {
        '\u{5da}'
    } else if i == 36 {
        '\u{5db}'
    } else if i == 37 {
        '\u{5dc}'
    } else if i == 38 {
        '\u{5dd}'
    } else if i == 39 {
        '\u{5de}'
    } else if i == 40 {
        '\u{5df}'
    } else if i == 41 {
        '\u{5e0}'
    } else if i == 42 {
        '\u{5e1}'
    } else if i == 43 {
        '\u{5e2}'
    } else if i == 44 {
        '\u{5e3}'
    } else if i == 45 {
        '\u{5e4}'
    } else if i == 46 {
        '\u{5e5}'
    } else if i == 47 {
        '\u{5e6}'
    } else if i == 48 {
        '\u{5e7}'
    } else if i == 49 {
        '\u{5e8}'
    } else if i == 50 {
        '\u{5e9}'
    } else if i == 51 {
        '\u{5ea}'
    } else if i == 52 {
        '\u{5f0}'
    } else if i == 53 {
        '\u{5f1}'
    } else if i == 54 {
        '\u{5f2}'
    } else if i == 55 {
        '\u{5f3}'
    } else if i == 56 {
        '\u{5f4}'
    } else {
        SENTINEL
    }
}

fn hebrew_char(i: usize) -> (c: char)
    ensures
        c == hebrew_entry(i as int),
{
    match i {
        0 => '\u{0}',
        1 => '\u{5b0}',
        2 => '\u{5b1}',
        3 => '\u{5b2}',
        4 => '\u{5b3}',
        5 => '\u{5b4}',
        6 => '\u{5b5}',
        7 => '\u{5b6}',
        8 => '\u{5b7}',
        9 => '\u{5b8}',
        10 => '\u{5b9}',
        11 => '\u{5ba}',
        12 => '\u{5bb}',
        13 => '\u{5bc}',
        14 => '\u{5bd}',
        15 => '\u{5be}',
        16 => '\u{5bf}',
        17 => '\u{5c0}',
        18 => '\u{5c1}',
        19 => '\u{5c2}',
        20 => '\u{5c3}',
        21 => '\u{5c4}',
        22 => '\u{5c5}',
        23 => '\u{5c6}',
        24 => '\u{5c7}',
        25 => '\u{5d0}',
        26 => '\u{5d1}',
        27 => '\u{5d2}',
        28 => '\u{5d3}',
        29 => '\u{5d4}',
        30 => '\u{5d5}',
        31 => '\u{5d6}',
        32 => '\u{5d7}',
        33 => '\u{5d8}',
        34 => '\u{5d9}',
        35 => '\u{5da}',
        36 => '\u{5db}',
        37 => '\u{5dc}',
        38 => '\u{5dd}',
        39 => '\u{5de}',
        40 => '\u{5df}',
        41 => '\u{5e0}',
        42 => '\u{5e1}',
        43 => '\u{5e2}',
        44 => '\u{5e3}',
        45 => '\u{5e4}',
        46 => '\u{5e5}',
        47 => '\u{5e6}',
        48 => '\u{5e7}',
        49 => '\u{5e8}',
        50 => '\u{5e9}',
        51 => '\u{5ea}',
        52 => '\u{5f0}',
        53 => '\u{5f1}',
        54 => '\u{5f2}',
        55 => '\u{5f3}',
        56 => '\u{5f4}',
        _ => SENTINEL,
    }
}

/// Shape of the hebrew page: entries `1 ..= 56` are real characters in
/// strictly ascending scalar order; everything after them is the sentinel.
#[verifier::rlimit(60)]
pub proof fn lemma_hebrew_facts()
    ensures
        forall|i: int| 1 <= i < 56 ==> ((#[trigger] hebrew_entry(i)) as int) < (hebrew_entry(i + 1) as int),
        forall|i: int| 56 < i ==> hebrew_entry(i) == SENTINEL,
        hebrew_entry(0) == '\u{0}',
        forall|i: int| 1 <= i <= 56 ==> 0 < ((#[trigger] hebrew_entry(i)) as int) < 0xffff,
{
}

/// Entry `i` of the arabic page.
pub open spec fn arabic_entry(i: int) -> char {
    if i == 0 {
        '\u{0}'
    } else if i == 1 {
        '\u{60c}'
    } else if i == 2 {
        '\u{61b}'
    } else if i == 3 {
        '\u{61f}'
    } else if i == 4 {
        '\u{621}'
    } else if i == 5 {
        '\u{627}'
    } else if i == 6 {
        '\u{628}'
    } else if i == 7 {
        '\u{629}'
    } else if i == 8 {
        '\u{62a}'
    } else if i == 9 {
        '\u{62b}'
    } else if i == 10 {
        '\u{62c}'
    } else if i == 11 {
        '\u{62d}'
    } else if i == 12 {
        '\u{62e}'
    } else if i == 13 {
        '\u{62f}'
    } else if i == 14 {
        '\u{630}'
    } else if i == 15 {
        '\u{631}'
    } else if i == 16 {
        '\u{632}'
    } else if i == 17 {
        '\u{633}'
    } else if i == 18 {
        '\u{634}'
    } else if i == 19 {
        '\u{635}'
    } else if i == 20 {
        '\u{636}'
    } else if i == 21 {
        '\u{637}'
    } else if i == 22 {
        '\u{638}'
    } else if i == 23 {
        '\u{639}'
    } else if i == 24 {
        '\u{63a}'
    } else if i == 25 {
        '\u{641}'
    } else if i == 26 {
        '\u{642}'
    } else if i == 27 {
        '\u{644}'
    } else if i == 28 {
        '\u{645}'
    } else if i == 29 {
        '\u{646}'
    } else if i == 30 {
        '\u{647}'
    } else if i == 31 {
        '\u{648}'
    } else if i == 32 {
        '\u{649}'
    } else if i == 33 {
        '\u{64a}'
    } else if i == 34 {
        '\u{64e}'
    } else if i == 35 {
        '\u{64f}'
    } else if i == 36 {
        '\u{650}'
    } else if i == 37 {
        '\u{651}'
    } else if i == 38 {
        '\u{653}'
    } else if i == 39 {
        '\u{654}'
    } else if i == 40 {
        '\u{656}'
    } else if i == 41 {
        '\u{657}'
    } else if i == 42 {
        '\u{670}'
    } else if i == 43 {
        '\u{679}'
    } else if i == 44 {
        '\u{67e}'
    } else if i == 45 {
        '\u{686}'
    } else if i == 46 {
        '\u{688}'
    } else if i == 47 {
        '\u{691}'
    } else if i == 48 {
        '\u{698}'
    } else if i == 49 {
        '\u{6a9}'
    } else if i == 50 {
        '\u{6af}'
    } else if i == 51 {
        '\u{6ba}'
    } else if i == 52 {
        '\u{6be}'
    } else if i == 53 {
        '\u{6d2}'
    } else if i == 54 {
        '\u{6d4}'
    } else {
        SENTINEL
    }
}

fn arabic_char(i: usize) -> (c: char)
    ensures
        c == arabic_entry(i as int),
{
    match i {
        0 => '\u{0}',
        1 => '\u{60c}',
        2 => '\u{61b}',
        3 => '\u{61f}',
        4 => '\u{621}',
        5 => '\u{627}',
        6 => '\u{628}',
        7 => '\u{629}',
        8 => '\u{62a}',
        9 => '\u{62b}',
        10 => '\u{62c}',
        11 => '\u{62d}',
        12 => '\u{62e}',
        13 => '\u{62f}',
        14 => '\u{630}',
        15 => '\u{631}',
        16 => '\u{632}',
        17 => '\u{633}',
        18 => '\u{634}',
        19 => '\u{635}',
        20 => '\u{636}',
        21 => '\u{637}',
        22 => '\u{638}',
        23 => '\u{639}',
        24 => '\u{63a}',
        25 => '\u{641}',
        26 => '\u{642}',
        27 => '\u{644}',
        28 => '\u{645}',
        29 => '\u{646}',
        30 => '\u{647}',
        31 => '\u{648}',
        32 => '\u{649}',
        33 => '\u{64a}',
        34 => '\u{64e}',
        35 => '\u{64f}',
        36 => '\u{650}',
        37 => '\u{651}',
        38 => '\u{653}',
        39 => '\u{654}',
        40 => '\u{656}',
        41 => '\u{657}',
        42 => '\u{670}',
        43 => '\u{679}',
        44 => '\u{67e}',
        45 => '\u{686}',
        46 => '\u{688}',
        47 => '\u{691}',
        48 => '\u{698}',
        49 => '\u{6a9}',
        50 => '\u{6af}',
        51 => '\u{6ba}',
        52 => '\u{6be}',
        53 => '\u{6d2}',
        54 => '\u{6d4}',
        _ => SENTINEL,
    }
}

/// Shape of the arabic page: entries `1 ..= 54` are real characters in
/// strictly ascending scalar order; everything after them is the sentinel.
#[verifier::rlimit(60)]
pub proof fn lemma_arabic_facts()
    ensures
        forall|i: int| 1 <= i < 54 ==> ((#[trigger] arabic_entry(i)) as int) < (arabic_entry(i + 1) as int),
        forall|i: int| 54 < i ==> arabic_entry(i) == SENTINEL,
        arabic_entry(0) == '\u{0}',
        forall|i: int| 1 <= i <= 54 ==> 0 < ((#[trigger] arabic_entry(i)) as int) < 0xffff,
{
}

/// Entry `i` of the devanagari page.
pub open spec fn devanagari_entry(i: int) -> char {
    if i == 0 {
        '\u{0}'
    } else if i == 1 {
        '\u{901}'
    } else if i == 2 {
        '\u{902}'
    } else if i == 3 {
        '\u{903}'
    } else if i == 4 {
        '\u{905}'
    } else if i == 5 {
        '\u{906}'
    } else if i == 6 {
        '\u{907}'
    } else if i == 7 {
        '\u{908}'
    } else if i == 8 {
        '\u{909}'
    } else if i == 9 {
        '\u{90a}'
    } else if i == 10 {
        '\u{90b}'
    } else if i == 11 {
        '\u{90f}'
    } else if i == 12 {
        '\u{910}'
    } else if i == 13 {
        '\u{913}'
    } else if i == 14 {
        '\u{914}'
    } else if i == 15 {
        '\u{915}'
    } else if i == 16 {
        '\u{916}'
    } else if i == 17 {
        '\u{917}'
    } else if i == 18 {
        '\u{918}'
    } else if i == 19 {
        '\u{919}'
    } else if i == 20 {
        '\u{91a}'
    } else if i == 21 {
        '\u{91b}'
    } else if i == 22 {
        '\u{91c}'
    } else if i == 23 {
        '\u{91d}'
    } else if i == 24 {
        '\u{91e}'
    } else if i == 25 {
        '\u{91f}'
    } else if i == 26 {
        '\u{920}'
    } else if i == 27 {
        '\u{921}'
    } else if i == 28 {
        '\u{922}'
    } else if i == 29 {
        '\u{923}'
    } else if i == 30 {
        '\u{924}'
    } else if i == 31 {
        '\u{925}'
    } else if i == 32 {
        '\u{926}'
    } else if i == 33 {
        '\u{927}'
    } else if i == 34 {
        '\u{928}'
    } else if i == 35 {
        '\u{92a}'
    } else if i == 36 {
        '\u{92b}'
    } else if i == 37 {
        '\u{92c}'
    } else if i == 38 {
        '\u{92d}'
    } else if i == 39 {
        '\u{92e}'
    } else if i == 40 {
        '\u{92f}'
    } else if i == 41 {
        '\u{930}'
    } else if i == 42 {
        '\u{932}'
    } else if i == 43 {
        '\u{933}'
    } else if i == 44 {
        '\u{935}'
    } else if i == 45 {
        '\u{936}'
    } else if i == 46 {
        '\u{937}'
    } else if i == 47 {
        '\u{938}'
    } else if i == 48 {
        '\u{939}'
    } else if i == 49 {
        '\u{93c}'
    } else if i == 50 {
        '\u{93e}'
    } else if i == 51 {
        '\u{93f}'
    } else if i == 52 {
        '\u{940}'
    } else if i == 53 {
        '\u{941}'
    } else if i == 54 {
        '\u{942}'
    } else if i == 55 {
        '\u{943}'
    } else if i == 56 {
        '\u{947}'
    } else if i == 57 {
        '\u{948}'
    } else if i == 58 {
        '\u{94b}'
    } else if i == 59 {
        '\u{94c}'
    } else if i == 60 {
        '\u{94d}'
    } else if i == 61 {
        '\u{964}'
    } else if i == 62 {
        '\u{965}'
    } else {
        SENTINEL
    }
}

fn devanagari_char(i: usize) -> (c: char)
    ensures
        c == devanagari_entry(i as int),
{
    match i {
        0 => '\u{0}',
        1 => '\u{901}',
        2 => '\u{902}',
        3 => '\u{903}',
        4 => '\u{905}',
        5 => '\u{906}',
        6 => '\u{907}',
        7 => '\u{908}',
        8 => '\u{909}',
        9 => '\u{90a}',
        10 => '\u{90b}',
        11 => '\u{90f}',
        12 => '\u{910}',
        13 => '\u{913}',
        14 => '\u{914}',
        15 => '\u{915}',
        16 => '\u{916}',
        17 => '\u{917}',
        18 => '\u{918}',
        19 => '\u{919}',
        20 => '\u{91a}',
        21 => '\u{91b}',
        22 => '\u{91c}',
        23 => '\u{91d}',
        24 => '\u{91e}',
        25 => '\u{91f}',
        26 => '\u{920}',
        27 => '\u{921}',
        28 => '\u{922}',
        29 => '\u{923}',
        30 => '\u{924}',
        31 => '\u{925}',
        32 => '\u{926}',
        33 => '\u{927}',
        34 => '\u{928}',
        35 => '\u{92a}',
        36 => '\u{92b}',
        37 => '\u{92c}',
        38 => '\u{92d}',
        39 => '\u{92e}',
        40 => '\u{92f}',
        41 => '\u{930}',
        42 => '\u{932}',
        43 => '\u{933}',
        44 => '\u{935}',
        45 => '\u{936}',
        46 => '\u{937}',
        47 => '\u{938}',
        48 => '\u{939}',
        49 => '\u{93c}',
        50 => '\u{93e}',
        51 => '\u{93f}',
        52 => '\u{940}',
        53 => '\u{941}',
        54 => '\u{942}',
        55 => '\u{943}',
        56 => '\u{947}',
        57 => '\u{948}',
        58 => '\u{94b}',
        59 => '\u{94c}',
        60 => '\u{94d}',
        61 => '\u{964}',
        62 => '\u{965}',
        _ => SENTINEL,
    }
}

/// Shape of the devanagari page: entries `1 ..= 62` are real characters in
/// strictly ascending scalar order; everything after them is the sentinel.
#[verifier::rlimit(60)]
pub proof fn lemma_devanagari_facts()
    ensures
        forall|i: int| 1 <= i < 62 ==> ((#[trigger] devanagari_entry(i)) as int) < (devanagari_entry(i + 1) as int),
        forall|i: int| 62 < i ==> devanagari_entry(i) == SENTINEL,
        devanagari_entry(0) == '\u{0}',
        forall|i: int| 1 <= i <= 62 ==> 0 < ((#[trigger] devanagari_entry(i)) as int) < 0xffff,
{
}

/// Entry `i` of the hangul page.
pub open spec fn hangul_entry(i: int) -> char {
    if i == 0 {
        '\u{0}'
    } else if i == 1 {
        '\u{3131}'
    } else if i == 2 {
        '\u{3132}'
    } else if i == 3 {
        '\u{3133}'
    } else if i == 4 {
        '\u{3134}'
    } else if i == 5 {
        '\u{3135}'
    } else if i == 6 {
        '\u{3136}'
    } else if i == 7 {
        '\u{3137}'
    } else if i == 8 {
        '\u{3138}'
    } else if i == 9 {
        '\u{3139}'
    } else if i == 10 {
        '\u{313a}'
    } else if i == 11 {
        '\u{313b}'
    } else if i == 12 {
        '\u{313c}'
    } else if i == 13 {
        '\u{313d}'
    } else if i == 14 {
        '\u{313e}'
    } else if i == 15 {
        '\u{313f}'
    } else if i == 16 {
        '\u{3140}'
    } else if i == 17 {
        '\u{3141}'
    } else if i == 18 {
        '\u{3142}'
    } else if i == 19 {
        '\u{3143}'
    } else if i == 20 {
        '\u{3144}'
    } else if i == 21 {
        '\u{3145}'
    } else if i == 22 {
        '\u{3146}'
    } else if i == 23 {
        '\u{3147}'
    } else if i == 24 {
        '\u{3148}'
    } else if i == 25 {
        '\u{3149}'
    } else if i == 26 {
        '\u{314a}'
    } else if i == 27 {
        '\u{314b}'
    } else if i == 28 {
        '\u{314c}'
    } else if i == 29 {
        '\u{314d}'
    } else if i == 30 {
        '\u{314e}'
    } else if i == 31 {
        '\u{314f}'
    } else if i == 32 {
        '\u{3150}'
    } else if i == 33 {
        '\u{3151}'
    } else if i == 34 {
        '\u{3152}'
    } else if i == 35 {
        '\u{3153}'
    } else if i == 36 {
        '\u{3154}'
    } else if i == 37 {
        '\u{3155}'
    } else if i == 38 {
        '\u{3156}'
    } else if i == 39 {
        '\u{3157}'
    } else if i == 40 {
        '\u{3158}'
    } else if i == 41 {
        '\u{3159}'
    } else if i == 42 {
        '\u{315a}'
    } else if i == 43 {
        '\u{315b}'
    } else if i == 44 {
        '\u{315c}'
    } else if i == 45 {
        '\u{315d}'
    } else if i == 46 {
        '\u{315e}'
    } else if i == 47 {
        '\u{315f}'
    } else if i == 48 {
        '\u{3160}'
    } else if i == 49 {
        '\u{3161}'
    } else if i == 50 {
        '\u{3162}'
    } else if i == 51 {
        '\u{3163}'
    } else {
        SENTINEL
    }
}

fn hangul_char(i: usize) -> (c: char)
    ensures
        c == hangul_entry(i as int),
{
    match i {
        0 => '\u{0}',
        1 => '\u{3131}',
        2 => '\u{3132}',
        3 => '\u{3133}',
        4 => '\u{3134}',
        5 => '\u{3135}',
        6 => '\u{3136}',
        7 => '\u{3137}',
        8 => '\u{3138}',
        9 => '\u{3139}',
        10 => '\u{313a}',
        11 => '\u{313b}',
        12 => '\u{313c}',
        13 => '\u{313d}',
        14 => '\u{313e}',
        15 => '\u{313f}',
        16 => '\u{3140}',
        17 => '\u{3141}',
        18 => '\u{3142}',
        19 => '\u{3143}',
        20 => '\u{3144}',
        21 => '\u{3145}',
        22 => '\u{3146}',
        23 => '\u{3147}',
        24 => '\u{3148}',
        25 => '\u{3149}',
        26 => '\u{314a}',
        27 => '\u{314b}',
        28 => '\u{314c}',
        29 => '\u{314d}',
        30 => '\u{314e}',
        31 => '\u{314f}',
        32 => '\u{3150}',
        33 => '\u{3151}',
        34 => '\u{3152}',
        35 => '\u{3153}',
        36 => '\u{3154}',
        37 => '\u{3155}',
        38 => '\u{3156}',
        39 => '\u{3157}',
        40 => '\u{3158}',
        41 => '\u{3159}',
        42 => '\u{315a}',
        43 => '\u{315b}',
        44 => '\u{315c}',
        45 => '\u{315d}',
        46 => '\u{315e}',
        47 => '\u{315f}',
        48 => '\u{3160}',
        49 => '\u{3161}',
        50 => '\u{3162}',
        51 => '\u{3163}',
        _ => SENTINEL,
    }
}

/// Shape of the hangul page: entries `1 ..= 51` are real characters in
/// strictly ascending scalar order; everything after them is the sentinel.
#[verifier::rlimit(60)]
pub proof fn lemma_hangul_facts()
    ensures
        forall|i: int| 1 <= i < 51 ==> ((#[trigger] hangul_entry(i)) as int) < (hangul_entry(i + 1) as int),
        forall|i: int| 51 < i ==> hangul_entry(i) == SENTINEL,
        hangul_entry(0) == '\u{0}',
        forall|i: int| 1 <= i <= 51 ==> 0 < ((#[trigger] hangul_entry(i)) as int) < 0xffff,
{
}

/// Entry `i` of the kana page.
pub open spec fn kana_entry(i: int) -> char {
    if i == 0 {
        '\u{0}'
    } else if i == 1 {
        '\u{ff61}'
    } else if i == 2 {
        '\u{ff62}'
    } else if i == 3 {
        '\u{ff63}'
    } else if i == 4 {
        '\u{ff64}'
    } else if i == 5 {
        '\u{ff65}'
    } else if i == 6 {
        '\u{ff66}'
    } else if i == 7 {
        '\u{ff67}'
    } else if i == 8 {
        '\u{ff68}'
    } else if i == 9 {
        '\u{ff69}'
    } else if i == 10 {
        '\u{ff6a}'
    } else if i == 11 {
        '\u{ff6b}'
    } else if i == 12 {
        '\u{ff6c}'
    } else if i == 13 {
        '\u{ff6d}'
    } else if i == 14 {
        '\u{ff6e}'
    } else if i == 15 {
        '\u{ff6f}'
    } else if i == 16 {
        '\u{ff70}'
    } else if i == 17 {
        '\u{ff71}'
    } else if i == 18 {
        '\u{ff72}'
    } else if i == 19 {
        '\u{ff73}'
    } else if i == 20 {
        '\u{ff74}'
    } else if i == 21 {
        '\u{ff75}'
    } else if i == 22 {
        '\u{ff76}'
    } else if i == 23 {
        '\u{ff77}'
    } else if i == 24 {
        '\u{ff78}'
    } else if i == 25 {
        '\u{ff79}'
    } else if i == 26 {
        '\u{ff7a}'
    } else if i == 27 {
        '\u{ff7b}'
    } else if i == 28 {
        '\u{ff7c}'
    } else if i == 29 {
        '\u{ff7d}'
    } else if i == 30 {
        '\u{ff7e}'
    } else if i == 31 {
        '\u{ff7f}'
    } else if i == 32 {
        '\u{ff80}'
    } else if i == 33 {
        '\u{ff81}'
    } else if i == 34 {
        '\u{ff82}'
    } else if i == 35 {
        '\u{ff83}'
    } else if i == 36 {
        '\u{ff84}'
    } else if i == 37 {
        '\u{ff85}'
    } else if i == 38 {
        '\u{ff86}'
    } else if i == 39 {
        '\u{ff87}'
    } else if i == 40 {
        '\u{ff88}'
    } else if i == 41 {
        '\u{ff89}'
    } else if i == 42 {
        '\u{ff8a}'
    } else if i == 43 {
        '\u{ff8b}'
    } else if i == 44 {
        '\u{ff8c}'
    } else if i == 45 {
        '\u{ff8d}'
    } else if i == 46 {
        '\u{ff8e}'
    } else if i == 47 {
        '\u{ff8f}'
    } else if i == 48 {
        '\u{ff90}'
    } else if i == 49 {
        '\u{ff91}'
    } else if i == 50 {
        '\u{ff92}'
    } else if i == 51 {
        '\u{ff93}'
    } else if i == 52 {
        '\u{ff94}'
    } else if i == 53 {
        '\u{ff95}'
    } else if i == 54 {
        '\u{ff96}'
    } else if i == 55 {
        '\u{ff97}'
    } else if i == 56 {
        '\u{ff98}'
    } else if i == 57 {
        '\u{ff99}'
    } else if i == 58 {
        '\u{ff9a}'
    } else if i == 59 {
        '\u{ff9b}'
    } else if i == 60 {
        '\u{ff9c}'
    } else if i == 61 {
        '\u{ff9d}'
    } else if i == 62 {
        '\u{ff9e}'
    } else if i == 63 {
        '\u{ff9f}'
    } else {
        SENTINEL
    }
}

fn kana_char(i: usize) -> (c: char)
    ensures
        c == kana_entry(i as int),
{
    match i {
        0 => '\u{0}',
        1 => '\u{ff61}',
        2 => '\u{ff62}',
        3 => '\u{ff63}',
        4 => '\u{ff64}',
        5 => '\u{ff65}',
        6 => '\u{ff66}',
        7 => '\u{ff67}',
        8 => '\u{ff68}',
        9 => '\u{ff69}',
        10 => '\u{ff6a}',
        11 => '\u{ff6b}',
        12 => '\u{ff6c}',
        13 => '\u{ff6d}',
        14 => '\u{ff6e}',
        15 => '\u{ff6f}',
        16 => '\u{ff70}',
        17 => '\u{ff71}',
        18 => '\u{ff72}',
        19 => '\u{ff73}',
        20 => '\u{ff74}',
        21 => '\u{ff75}',
        22 => '\u{ff76}',
        23 => '\u{ff77}',
        24 => '\u{ff78}',
        25 => '\u{ff79}',
        26 => '\u{ff7a}',
        27 => '\u{ff7b}',
        28 => '\u{ff7c}',
        29 => '\u{ff7d}',
        30 => '\u{ff7e}',
        31 => '\u{ff7f}',
        32 => '\u{ff80}',
        33 => '\u{ff81}',
        34 => '\u{ff82}',
        35 => '\u{ff83}',
        36 => '\u{ff84}',
        37 => '\u{ff85}',
        38 => '\u{ff86}',
        39 => '\u{ff87}',
        40 => '\u{ff88}',
        41 => '\u{ff89}',
        42 => '\u{ff8a}',
        43 => '\u{ff8b}',
        44 => '\u{ff8c}',
        45 => '\u{ff8d}',
        46 => '\u{ff8e}',
        47 => '\u{ff8f}',
        48 => '\u{ff90}',
        49 => '\u{ff91}',
        50 => '\u{ff92}',
        51 => '\u{ff93}',
        52 => '\u{ff94}',
        53 => '\u{ff95}',
        54 => '\u{ff96}',
        55 => '\u{ff97}',
        56 => '\u{ff98}',
        57 => '\u{ff99}',
        58 => '\u{ff9a}',
        59 => '\u{ff9b}',
        60 => '\u{ff9c}',
        61 => '\u{ff9d}',
        62 => '\u{ff9e}',
        63 => '\u{ff9f}',
        _ => SENTINEL,
    }
}

/// Shape of the kana page: entries `1 ..= 63` are real characters in
/// strictly ascending scalar order; everything after them is the sentinel.
#[verifier::rlimit(60)]
pub proof fn lemma_kana_facts()
    ensures
        forall|i: int| 1 <= i < 63 ==> ((#[trigger] kana_entry(i)) as int) < (kana_entry(i + 1) as int),
        forall|i: int| 63 < i ==> kana_entry(i) == SENTINEL,
        kana_entry(0) == '\u{0}',
        forall|i: int| 1 <= i <= 63 ==> 0 < ((#[trigger] kana_entry(i)) as int) < 0xffff,
{
}

/// Entry `i` of the page named by the 4-bit tag `p`; pages are listed in
/// Unicode-block order, and a tag that names no page yields a table made
/// wholly of the sentinel.
pub open spec fn page_entry(p: int, i: int) -> char {
    if p == 0 {
        latin_entry(i)
    } else if p == 1 {
        greek_entry(i)
    } else if p == 2 {
        cyrillic_entry(i)
    } else if p == 3 {
        hebrew_entry(i)
    } else if p == 4 {
        arabic_entry(i)
    } else if p == 8 {
        devanagari_entry(i)
    } else if p == 11 {
        hangul_entry(i)
    } else if p == 15 {
        kana_entry(i)
    } else {
        SENTINEL
    }
}

/// How many real characters page `p` holds (they sit at entries `1 ..= n_real(p)`).
pub open spec fn n_real(p: int) -> nat {
    if p == 0 {
        63
    } else if p == 1 {
        63
    } else if p == 2 {
        63
    } else if p == 3 {
        56
    } else if p == 4 {
        54
    } else if p == 8 {
        62
    } else if p == 11 {
        51
    } else if p == 15 {
        63
    } else {
        0
    }
}

/// Entry `i` of page `p`: the sentinel when the slot is unassigned or the
/// page is reserved.
pub fn char_of(p: usize, i: usize) -> (c: char)
    ensures
        c == page_entry(p as int, i as int),
{
    match p {
        0 => latin_char(i),
        1 => greek_char(i),
        2 => cyrillic_char(i),
        3 => hebrew_char(i),
        4 => arabic_char(i),
        8 => devanagari_char(i),
        11 => hangul_char(i),
        15 => kana_char(i),
        _ => SENTINEL,
    }
}

/// The shape every page has: real characters sit exactly at entries
/// `1 ..= n_real(p)`, in strictly ascending scalar order, and every other
/// entry past 0 is the sentinel.
pub proof fn lemma_page_facts(p: int)
    ensures
        forall|i: int| 1 <= i < n_real(p) ==> ((#[trigger] page_entry(p, i)) as int) < (page_entry(
            p,
            i + 1,
        ) as int),
        forall|i: int| n_real(p) < i ==> #[trigger] page_entry(p, i) == SENTINEL,
        forall|i: int| 1 <= i <= n_real(p) ==> 0 < ((#[trigger] page_entry(p, i)) as int) < 0xffff,
        n_real(p) <= 63,
{
    if p == 0 {
        lemma_latin_facts();
    } else if p == 1 {
        lemma_greek_facts();
    } else if p == 2 {
        lemma_cyrillic_facts();
    } else if p == 3 {
        lemma_hebrew_facts();
    } else if p == 4 {
        lemma_arabic_facts();
    } else if p == 8 {
        lemma_devanagari_facts();
    } else if p == 11 {
        lemma_hangul_facts();
    } else if p == 15 {
        lemma_kana_facts();
    }
}

/// Within one page, real entries ascend: a larger code index holds a larger
/// character.
pub proof fn lemma_entry_mono(p: int, i: int, j: int)
    requires
        1 <= i < j <= n_real(p),
    ensures
        (page_entry(p, i) as int) < (page_entry(p, j) as int),
    decreases j - i,
{
    lemma_page_facts(p);
    if i + 1 < j {
        lemma_entry_mono(p, i, j - 1);
    }
}

/// The first code at or after `i` whose entry in page `p` is the character
/// `c` (sentinel entries never match).
pub open spec fn code_scan(p: int, c: char, i: int) -> Option<int>
    decreases 64 - i,
{
    if i < 1 || i >= 64 {
        None
    } else if page_entry(p, i) != SENTINEL && page_entry(p, i) == c {
        Some(i)
    } else {
        code_scan(p, c, i + 1)
    }
}

/// The 6-bit code of `c` in page `p`, if `c` is one of its real characters.
pub open spec fn spec_code_of(p: int, c: char) -> Option<int> {
    code_scan(p, c, 1)
}

/// What a successful code scan yields: a code in range whose entry is `c`.
pub proof fn lemma_code_scan_some(p: int, c: char, i: int)
    requires
        1 <= i,
        code_scan(p, c, i) is Some,
    ensures
        i <= code_scan(p, c, i)->Some_0 < 64,
        page_entry(p, code_scan(p, c, i)->Some_0) == c,
        c != SENTINEL,
        1 <= code_scan(p, c, i)->Some_0 <= n_real(p),
    decreases 64 - i,
{
    lemma_page_facts(p);
    if !(page_entry(p, i) != SENTINEL && page_entry(p, i) == c) {
        lemma_code_scan_some(p, c, i + 1);
    }
}

/// The 6-bit code of `c` in page `p`, computed by a scan of the 63
/// candidate slots.
pub fn code_of(p: usize, c: char) -> (r: Option<usize>)
    ensures
        r is Some <==> spec_code_of(p as int, c) is Some,
        r is Some ==> r->Some_0 as int == spec_code_of(p as int, c)->Some_0,
{
    let mut i: usize = 1;
    while i < 64
        invariant
            1 <= i <= 64,
            code_scan(p as int, c, 1) == code_scan(p as int, c, i as int),
        decreases 64 - i,
    {
        let e = char_of(p, i);
        if e != SENTINEL && e == c {
            return Some(i);
        }
        i = i + 1;
    }
    None
}

/// The first page, in Unicode-block order starting at `p`, holding `c`.
pub open spec fn page_scan(c: char, p: int) -> Option<int>
    decreases 16 - p,
{
    if p < 0 || p >= 16 {
        None
    } else if spec_code_of(p, c) is Some {
        Some(p)
    } else {
        page_scan(c, p + 1)
    }
}

/// The page holding the character `c`, if any does.
pub open spec fn spec_page_of(c: char) -> Option<int> {
    page_scan(c, 0)
}

/// What a successful page scan yields: a page in range that holds `c`.
pub proof fn lemma_page_scan_some(c: char, p: int)
    requires
        0 <= p,
        page_scan(c, p) is Some,
    ensures
        p <= page_scan(c, p)->Some_0 < 16,
        spec_code_of(page_scan(c, p)->Some_0, c) is Some,
    decreases 16 - p,
{
    if p < 16 && spec_code_of(p, c) is None {
        lemma_page_scan_some(c, p + 1);
    }
}

/// The page holding `c`, computed by trying each of the 16 pages in order.
pub fn page_of(c: char) -> (r: Option<usize>)
    ensures
        r is Some <==> spec_page_of(c) is Some,
        r is Some ==> r->Some_0 as int == spec_page_of(c)->Some_0,
{
    let mut p: usize = 0;
    while p < 16
        invariant
            p <= 16,
            page_scan(c, 0) == page_scan(c, p as int),
        decreases 16 - p,
    {
        if code_of(p, c).is_some() {
            return Some(p);
        }
        p = p + 1;
    }
    None
}

/// The block a character belongs to, as a page index: the URO block counts
/// as the page its dedicated tag names.
pub open spec fn block_of(c: char) -> Option<int> {
    if in_uro(c) {
        Some(URO_PAGE as int)
    } else {
        spec_page_of(c)
    }
}

/// Lowest scalar value block `p` can hold (blocks with no characters get an
/// empty range).
pub open spec fn block_lo(p: int) -> int {
    if p == 0 {
        0x30
    } else if p == 1 {
        0x386
    } else if p == 2 {
        0x410
    } else if p == 3 {
        0x5b0
    } else if p == 4 {
        0x60c
    } else if p == 8 {
        0x901
    } else if p == 11 {
        0x3131
    } else if p == 12 {
        0x4e00
    } else if p == 15 {
        0xff61
    } else {
        1
    }
}

/// Highest scalar value block `p` can hold.
pub open spec fn block_hi(p: int) -> int {
    if p == 0 {
        0x7a
    } else if p == 1 {
        0x3ce
    } else if p == 2 {
        0x44f
    } else if p == 3 {
        0x5f4
    } else if p == 4 {
        0x6d4
    } else if p == 8 {
        0x965
    } else if p == 11 {
        0x3163
    } else if p == 12 {
        0x9fff
    } else if p == 15 {
        0xff9f
    } else {
        0
    }
}

/// Every real entry of a page lies in that page's block range.
pub proof fn lemma_entry_in_block(p: int, i: int)
    requires
        0 <= p < 16,
        1 <= i <= n_real(p),
    ensures
        block_lo(p) <= page_entry(p, i) as int <= block_hi(p),
{
    lemma_page_facts(p);
    if i > 1 {
        lemma_entry_mono(p, 1, i);
    }
    if i < n_real(p) {
        lemma_entry_mono(p, i, n_real(p) as int);
    }
}

/// A character's block brackets its scalar value.
pub proof fn lemma_block_of_some(c: char)
    requires
        block_of(c) is Some,
    ensures
        0 <= block_of(c)->Some_0 < 16,
        block_lo(block_of(c)->Some_0) <= c as int <= block_hi(block_of(c)->Some_0),
{
    if !in_uro(c) {
        lemma_page_scan_some(c, 0);
        let p = spec_page_of(c)->Some_0;
        lemma_code_scan_some(p, c, 1);
        lemma_entry_in_block(p, spec_code_of(p, c)->Some_0);
    }
}

/// A URO character sits in no table page: the block ranges are disjoint.
pub proof fn lemma_uro_no_page(c: char)
    requires
        in_uro(c),
    ensures
        spec_page_of(c) is None,
{
    if spec_page_of(c) is Some {
        lemma_page_scan_some(c, 0);
        let p = spec_page_of(c)->Some_0;
        lemma_code_scan_some(p, c, 1);
        lemma_entry_in_block(p, spec_code_of(p, c)->Some_0);
        lemma_page_facts(p);
    }
}

/// Blocks are listed in Unicode order: a character with a smaller scalar
/// value never belongs to a later block.
pub proof fn lemma_block_order(c: char, d: char)
    requires
        block_of(c) is Some,
        block_of(d) is Some,
        (c as int) < (d as int),
    ensures
        block_of(c)->Some_0 <= block_of(d)->Some_0,
{
    lemma_block_of_some(c);
    lemma_block_of_some(d);
}

/// Low end of the URO ideograph block, as a scalar value.
pub const URO_LO: u32 = 0x4e00;

/// High end of the URO ideograph block, as a scalar value.
pub const URO_HI: u32 = 0x9fff;

/// The page index (equally: the 4-bit tag) dedicated to the URO block.
pub const URO_PAGE: usize = 12;

/// Whether `c` lies in the URO ideograph block.
pub open spec fn in_uro(c: char) -> bool {
    URO_LO <= c as u32 <= URO_HI
}

/// A URO character reads the same as `int` and as `u32`.
pub proof fn lemma_uro_scalar(c: char)
    requires
        in_uro(c),
    ensures
        c as int == (c as u32) as int,
{
    vstd::utf8::char_u32_cast(c, c as u32);
    let u = c as u32;
    assert((u as char) == c);
    assert((u as char) as int == u as int);
}

/// Distance of a URO character from the low end of the block.
pub open spec fn uro_delta(c: char) -> int {
    c as u32 - URO_LO
}

/// The delta of `c` within the URO block, or `None` outside it.
pub fn chinese_15bit_delta(c: char) -> (r: Option<usize>)
    ensures
        r is Some <==> in_uro(c),
        r is Some ==> r->Some_0 as int == uro_delta(c),
{
    let u = c as u32;
    if URO_LO <= u && u <= URO_HI {
        Some((u - URO_LO) as usize)
    } else {
        None
    }
}

} // verus!
