//! Which candle prices an indicator reads, chosen by name.
//!
//! VWAP and T3 read the name case-insensitively; the wavetrend reads it as
//! written and knows no `hl2`; the Chandelier exit picks its side by name.

use vstd::prelude::*;

verus! {

/// A price derived from each candle.
#[derive(Clone, Copy, Debug, PartialEq, Eq, Structural)]
pub enum SourceType {
    Open,
    High,
    Low,
    Close,
    /// `(high + low) / 2`
    Hl2,
    /// `(high + low + close) / 3`
    Hlc3,
    /// `(open + high + low + close) / 4`
    Ohlc4,
}

/// The side of the Chandelier exit.
#[derive(Clone, Copy, Debug, PartialEq, Eq, Structural)]
pub enum Direction {
    /// Below the highest high.
    Long,
    /// Above the lowest low.
    Short,
}

/// A character as lower-case ASCII folds it (letters `A` to `Z` only).
pub open spec fn fold_ascii(c: char) -> char {
    if 'A' <= c <= 'Z' {
        ((c as u32) + 32) as char
    } else {
        c
    }
}

/// Whether `name` spells `word`, ignoring the case of ASCII letters when
/// `fold_case` holds.
///
/// The words this module knows are lower-case ASCII without the letter `k`;
/// for them, folding ASCII case is exactly what Unicode lower-casing the
/// name does (the one other character that lower-cases to an ASCII letter,
/// KELVIN SIGN, becomes `k`).
pub open spec fn spells(name: Seq<char>, word: Seq<char>, fold_case: bool) -> bool {
    &&& name.len() == word.len()
    &&& forall|i: int|
        0 <= i < name.len() ==> (if fold_case {
            fold_ascii(#[trigger] name[i])
        } else {
            name[i]
        }) == word[i]
}

fn spells_exec(name: &str, word: &str, fold_case: bool) -> (r: bool)
    ensures
        r == spells(name@, word@, fold_case),
{
    let n = name.unicode_len();
    let m = word.unicode_len();
    if n != m {
        return false;
    }
    let mut i: usize = 0;
    while i < n
        invariant
            i <= n,
            n == name@.len(),
            m == word@.len(),
            n == m,
            forall|j: int|
                0 <= j < i ==> (if fold_case {
                    fold_ascii(#[trigger] name@[j])
                } else {
                    name@[j]
                }) == word@[j],
        decreases n - i,
    {
        let c = name.get_char(i);
        let w = word.get_char(i);
        let folded: u32 = if fold_case && 'A' <= c && c <= 'Z' {
            (c as u32) + 32
        } else {
            c as u32
        };
        if folded != w as u32 {
            return false;
        }
        i = i + 1;
    }
    true
}

/// The price named `name` among open, high, low, close, hl2, hlc3 and ohlc4.
pub open spec fn named_source(name: Seq<char>, fold_case: bool) -> Option<SourceType> {
    if spells(name, seq!['o', 'p', 'e', 'n'], fold_case) {
        Some(SourceType::Open)
    } else if spells(name, seq!['h', 'i', 'g', 'h'], fold_case) {
        Some(SourceType::High)
    } else if spells(name, seq!['l', 'o', 'w'], fold_case) {
        Some(SourceType::Low)
    } else if spells(name, seq!['c', 'l', 'o', 's', 'e'], fold_case) {
        Some(SourceType::Close)
    } else if spells(name, seq!['h', 'l', '2'], fold_case) {
        Some(SourceType::Hl2)
    } else if spells(name, seq!['h', 'l', 'c', '3'], fold_case) {
        Some(SourceType::Hlc3)
    } else if spells(name, seq!['o', 'h', 'l', 'c', '4'], fold_case) {
        Some(SourceType::Ohlc4)
    } else {
        None
    }
}

fn named_source_exec(name: &str, fold_case: bool) -> (r: Option<SourceType>)
    ensures
        r == named_source(name@, fold_case),
{
    proof {
        reveal_strlit("open");
        reveal_strlit("high");
        reveal_strlit("low");
        reveal_strlit("close");
        reveal_strlit("hl2");
        reveal_strlit("hlc3");
        reveal_strlit("ohlc4");
    }
    if spells_exec(name, "open", fold_case) {
        Some(SourceType::Open)
    } else if spells_exec(name, "high", fold_case) {
        Some(SourceType::High)
    } else if spells_exec(name, "low", fold_case) {
        Some(SourceType::Low)
    } else if spells_exec(name, "close", fold_case) {
        Some(SourceType::Close)
    } else if spells_exec(name, "hl2", fold_case) {
        Some(SourceType::Hl2)
    } else if spells_exec(name, "hlc3", fold_case) {
        Some(SourceType::Hlc3)
    } else if spells_exec(name, "ohlc4", fold_case) {
        Some(SourceType::Ohlc4)
    } else {
        None
    }
}

/// The price VWAP averages: named case-insensitively, `hlc3` by default.
pub fn vwap_source(name: &str) -> (s: SourceType)
    ensures
        s == (match named_source(name@, true) {
            Some(t) => t,
            None => SourceType::Hlc3,
        }),
{
    match named_source_exec(name, true) {
        Some(t) => t,
        None => SourceType::Hlc3,
    }
}

/// The price T3 smooths: named case-insensitively, `close` by default.
pub fn t3_source(name: &str) -> (s: SourceType)
    ensures
        s == (match named_source(name@, true) {
            Some(t) => t,
            None => SourceType::Close,
        }),
{
    match named_source_exec(name, true) {
        Some(t) => t,
        None => SourceType::Close,
    }
}

/// The price the wavetrend reads: named exactly as written, `close` by
/// default; it knows no `hl2`.
pub fn wt_source(name: &str) -> (s: SourceType)
    ensures
        s == (match named_source(name@, false) {
            Some(SourceType::Hl2) => SourceType::Close,
            Some(t) => t,
            None => SourceType::Close,
        }),
{
    match named_source_exec(name, false) {
        Some(SourceType::Hl2) => SourceType::Close,
        Some(t) => t,
        None => SourceType::Close,
    }
}

/// The side of the Chandelier exit named `name` (`long` or `short`, as
/// written); any other name gives no side, and the exit stays all NaN.
pub fn chandelier_direction(name: &str) -> (d: Option<Direction>)
    ensures
        d == (if spells(name@, seq!['l', 'o', 'n', 'g'], false) {
            Some(Direction::Long)
        } else if spells(name@, seq!['s', 'h', 'o', 'r', 't'], false) {
            Some(Direction::Short)
        } else {
            None
        }),
{
    proof {
        reveal_strlit("long");
        reveal_strlit("short");
    }
    if spells_exec(name, "long", false) {
        Some(Direction::Long)
    } else if spells_exec(name, "short", false) {
        Some(Direction::Short)
    } else {
        None
    }
}

/// The name of each price, as jesse spells it.
pub open spec fn source_name(t: SourceType) -> Seq<char> {
    match t {
        SourceType::Open => seq!['o', 'p', 'e', 'n'],
        SourceType::High => seq!['h', 'i', 'g', 'h'],
        SourceType::Low => seq!['l', 'o', 'w'],
        SourceType::Close => seq!['c', 'l', 'o', 's', 'e'],
        SourceType::Hl2 => seq!['h', 'l', '2'],
        SourceType::Hlc3 => seq!['h', 'l', 'c', '3'],
        SourceType::Ohlc4 => seq!['o', 'h', 'l', 'c', '4'],
    }
}

proof fn lemma_spelled_words_agree(name: Seq<char>, w1: Seq<char>, w2: Seq<char>, fold_case: bool)
    requires
        spells(name, w1, fold_case),
        spells(name, w2, fold_case),
    ensures
        w1 =~= w2,
{
    assert forall|i: int| 0 <= i < w1.len() implies w1[i] == w2[i] by {
        let c = name[i];
        assert((if fold_case {
            fold_ascii(c)
        } else {
            c
        }) == w1[i]);
        assert((if fold_case {
            fold_ascii(c)
        } else {
            c
        }) == w2[i]);
    }
}

proof fn lemma_names_differ(a: SourceType, b: SourceType)
    requires
        a != b,
    ensures
        source_name(a) != source_name(b),
{
    let x = source_name(a);
    let y = source_name(b);
    if x == y {
        assert(x[0] == y[0]);
        if x.len() >= 2 {
            assert(x[1] == y[1]);
        }
        if x.len() >= 3 {
            assert(x[2] == y[2]);
        }
    }
}

/// A name selects the price it spells, and only that one: over every name
/// and case rule, the lookup gives `t` exactly when the name spells `t`'s
/// name (so `close` gives the close, `hlc3` the typical price), and gives
/// nothing exactly when it spells none of them.
pub proof fn law_named_source_is_spelled(name: Seq<char>, fold_case: bool, t: SourceType)
    ensures
        named_source(name, fold_case) == Some(t) <==> spells(name, source_name(t), fold_case),
        named_source(name, fold_case) is None <==> forall|u: SourceType|
            !spells(name, #[trigger] source_name(u), fold_case),
{
    if spells(name, source_name(t), fold_case) {
        assert forall|u: SourceType| u != t implies !spells(
            name,
            #[trigger] source_name(u),
            fold_case,
        ) by {
            if spells(name, source_name(u), fold_case) {
                lemma_spelled_words_agree(name, source_name(t), source_name(u), fold_case);
                lemma_names_differ(t, u);
            }
        }
        assert(!spells(name, source_name(SourceType::Open), fold_case) || t == SourceType::Open);
        assert(!spells(name, source_name(SourceType::High), fold_case) || t == SourceType::High);
        assert(!spells(name, source_name(SourceType::Low), fold_case) || t == SourceType::Low);
        assert(!spells(name, source_name(SourceType::Close), fold_case) || t == SourceType::Close);
        assert(!spells(name, source_name(SourceType::Hl2), fold_case) || t == SourceType::Hl2);
        assert(!spells(name, source_name(SourceType::Hlc3), fold_case) || t == SourceType::Hlc3);
        assert(!spells(name, source_name(SourceType::Ohlc4), fold_case) || t == SourceType::Ohlc4);
    }
    if named_source(name, fold_case) is None {
        assert forall|u: SourceType| !spells(name, #[trigger] source_name(u), fold_case) by {
            match u {
                SourceType::Open => {},
                SourceType::High => {},
                SourceType::Low => {},
                SourceType::Close => {},
                SourceType::Hl2 => {},
                SourceType::Hlc3 => {},
                SourceType::Ohlc4 => {},
            }
        }
    } else {
        let v = named_source(name, fold_case).unwrap();
        assert(spells(name, source_name(v), fold_case));
    }
}

/// T3 and VWAP read the price whose name the given name spells, ignoring
/// ASCII case; T3 reads the close and VWAP the typical price when it spells
/// none.
pub proof fn law_t3_and_vwap_sources(name: Seq<char>, t: SourceType)
    ensures
        spells(name, source_name(t), true) ==> named_source(name, true) == Some(t),
        (forall|u: SourceType| !spells(name, #[trigger] source_name(u), true)) ==> named_source(
            name,
            true,
        ) is None,
{
    law_named_source_is_spelled(name, true, t);
}

/// A letter in upper case (ASCII `a` to `z` only).
pub open spec fn upper_ascii(c: char) -> char {
    if 'a' <= c <= 'z' {
        ((c as u32) - 32) as char
    } else {
        c
    }
}

/// Case folding as the names use it: for a word in lower-case ASCII, a name
/// spells it ignoring case exactly when each of its characters is the
/// word's character or that character in upper case; read as written, a
/// name spells it exactly when it is the word.
pub proof fn law_spelling_ignores_ascii_case(name: Seq<char>, word: Seq<char>)
    requires
        forall|i: int|
            0 <= i < word.len() ==> !('A' <= #[trigger] word[i] && word[i] <= 'Z') && (
            word[i] as u32) < 128,
    ensures
        spells(name, word, true) <==> (name.len() == word.len() && forall|i: int|
            0 <= i < name.len() ==> #[trigger] name[i] == word[i] || name[i] == upper_ascii(
                word[i],
            )),
        spells(name, word, false) <==> name =~= word,
{
    if spells(name, word, true) {
        assert forall|i: int| 0 <= i < name.len() implies #[trigger] name[i] == word[i]
            || name[i] == upper_ascii(word[i]) by {
            let c = name[i];
            assert(fold_ascii(c) == word[i]);
        }
    }
    if name.len() == word.len() && forall|i: int|
        0 <= i < name.len() ==> #[trigger] name[i] == word[i] || name[i] == upper_ascii(word[i]) {
        assert forall|i: int| 0 <= i < name.len() implies fold_ascii(#[trigger] name[i])
            == word[i] by {
            assert(name[i] == word[i] || name[i] == upper_ascii(word[i]));
        }
    }
    if spells(name, word, false) {
        assert forall|i: int| 0 <= i < name.len() implies #[trigger] name[i] == word[i] by {
            let c = name[i];
            assert(c == word[i]);
        }
    }
}

} // verus!
