//! The textual syntax of access paths:
//!
//! ```text
//! path  := '*'? ident (field | index | arrow)*
//! field := '.' ident
//! index := '[' digits ']'
//! arrow := '->' ident
//! ```
//!
//! An identifier starts with an alphabetic character or `_` and continues
//! with alphanumeric characters or `_`; an index is a run of decimal digits
//! whose value must fit the machine word; a leading `*` is appended as a
//! trailing dereference. The whole input must match.

use vstd::prelude::*;
use vstd::string::StrSliceExecFns;

use crate::access::{Indirection, IndirectionView, Path};

verus! {

/// What `char::is_alphabetic` returns; the result depends on the character
/// alone.
pub uninterp spec fn char_alphabetic(c: char) -> bool;

/// What `char::is_alphanumeric` returns; the result depends on the
/// character alone.
pub uninterp spec fn char_alphanumeric(c: char) -> bool;

/// Relies on `char::is_alphabetic`, which classifies a character by the
/// Unicode alphabetic table.
#[verifier::external_body]
fn char_is_alphabetic(c: char) -> (r: bool)
    ensures
        r == char_alphabetic(c),
{
    c.is_alphabetic()
}

/// Relies on `char::is_alphanumeric`, which classifies a character by the
/// Unicode alphabetic and numeric tables.
#[verifier::external_body]
fn char_is_alphanumeric(c: char) -> (r: bool)
    ensures
        r == char_alphanumeric(c),
{
    c.is_alphanumeric()
}

/// A character that may start an identifier.
pub open spec fn spec_ident_start(c: char) -> bool {
    char_alphabetic(c) || c == '_'
}

/// A character that may continue an identifier.
pub open spec fn spec_ident_char(c: char) -> bool {
    char_alphanumeric(c) || c == '_'
}

pub fn is_alphunder(ch: char) -> (r: bool)
    ensures
        r == spec_ident_start(ch),
{
    char_is_alphabetic(ch) || ch == '_'
}

pub fn is_alphnumder(ch: char) -> (r: bool)
    ensures
        r == spec_ident_char(ch),
{
    char_is_alphanumeric(ch) || ch == '_'
}

/// A decimal digit.
pub open spec fn spec_is_digit(c: char) -> bool {
    '0' <= c && c <= '9'
}

/// The first position at or after `i` that no longer continues an
/// identifier.
pub open spec fn spec_ident_end(s: Seq<char>, i: int) -> int
    decreases s.len() - i,
{
    if 0 <= i < s.len() && spec_ident_char(s[i]) {
        spec_ident_end(s, i + 1)
    } else {
        i
    }
}

/// The first position at or after `i` that is not a decimal digit.
pub open spec fn spec_digits_end(s: Seq<char>, i: int) -> int
    decreases s.len() - i,
{
    if 0 <= i < s.len() && spec_is_digit(s[i]) {
        spec_digits_end(s, i + 1)
    } else {
        i
    }
}

/// The value of the digit run `s[i..e)`.
pub open spec fn spec_digits_val(s: Seq<char>, i: int, e: int) -> int
    decreases e - i,
{
    if e <= i {
        0
    } else {
        spec_digits_val(s, i, e - 1) * 10 + ((s[e - 1] as u32) - ('0' as u32))
    }
}

/// The units after the base identifier, parsed from position `i`; `None`
/// when the remaining text is not a sequence of field, index and arrow
/// steps.
pub open spec fn spec_units(s: Seq<char>, i: int) -> Option<Seq<IndirectionView>>
    decreases s.len() - i,
{
    if i >= s.len() {
        Some(Seq::empty())
    } else if i < 0 {
        None
    } else if s[i] == '.' {
        if i + 1 < s.len() && spec_ident_start(s[i + 1]) {
            let e = spec_ident_end(s, i + 2);
            if i < e <= s.len() {
                match spec_units(s, e) {
                    Some(rest) => Some(
                        seq![IndirectionView::Field(s.subrange(i + 1, e))] + rest,
                    ),
                    None => None,
                }
            } else {
                None
            }
        } else {
            None
        }
    } else if s[i] == '[' {
        let e = spec_digits_end(s, i + 1);
        if i + 1 < e && e < s.len() && s[e] == ']' && spec_digits_val(s, i + 1, e) <= usize::MAX {
            match spec_units(s, e + 1) {
                Some(rest) => Some(
                    seq![IndirectionView::Index(spec_digits_val(s, i + 1, e))] + rest,
                ),
                None => None,
            }
        } else {
            None
        }
    } else if s[i] == '-' {
        if i + 2 < s.len() && s[i + 1] == '>' && spec_ident_start(s[i + 2]) {
            let e = spec_ident_end(s, i + 3);
            if i < e <= s.len() {
                match spec_units(s, e) {
                    Some(rest) => Some(
                        seq![IndirectionView::Arrow(s.subrange(i + 2, e))] + rest,
                    ),
                    None => None,
                }
            } else {
                None
            }
        } else {
            None
        }
    } else {
        None
    }
}

/// A whole access path: an optional leading `*`, a base identifier naming a
/// span, then field, index and arrow steps; the leading `*` becomes a
/// trailing dereference. `None` when the text does not match the grammar.
pub open spec fn spec_parse_path(s: Seq<char>) -> Option<Seq<IndirectionView>> {
    let star = s.len() > 0 && s[0] == '*';
    let b: int = if star {
        1
    } else {
        0
    };
    if b < s.len() && spec_ident_start(s[b]) {
        let e = spec_ident_end(s, b + 1);
        if b < e <= s.len() {
            match spec_units(s, e) {
                Some(tail) => Some(
                    seq![IndirectionView::Field(s.subrange(b, e))] + tail + (if star {
                        seq![IndirectionView::Deref]
                    } else {
                        Seq::empty()
                    }),
                ),
                None => None,
            }
        } else {
            None
        }
    } else {
        None
    }
}

/// The value of a digit run is nonnegative.
pub proof fn lemma_digits_val_nonneg(s: Seq<char>, i: int, e: int)
    requires
        forall|k: int| i <= k < e ==> spec_is_digit(#[trigger] s[k]),
    ensures
        spec_digits_val(s, i, e) >= 0,
    decreases e - i,
{
    if e > i {
        lemma_digits_val_nonneg(s, i, e - 1);
    }
}

/// The value of a digit run only grows as the run extends.
pub proof fn lemma_digits_val_mono(s: Seq<char>, i: int, e1: int, e2: int)
    requires
        i <= e1 <= e2,
        forall|k: int| i <= k < e2 ==> spec_is_digit(#[trigger] s[k]),
    ensures
        spec_digits_val(s, i, e1) <= spec_digits_val(s, i, e2),
    decreases e2 - e1,
{
    if e1 < e2 {
        lemma_digits_val_mono(s, i, e1, e2 - 1);
        lemma_digits_val_nonneg(s, i, e2 - 1);
    }
}

/// Every position of a digit run is a digit.
pub proof fn lemma_digits_run(s: Seq<char>, i: int, k: int)
    requires
        0 <= i <= k < spec_digits_end(s, i),
    ensures
        spec_is_digit(s[k]),
    decreases s.len() - i,
{
    if 0 <= i < s.len() && spec_is_digit(s[i]) {
        if k > i {
            lemma_digits_run(s, i + 1, k);
        }
    }
}

/// Scan an identifier run starting at `start` (character positions).
fn ident_end(text: &str, n: usize, start: usize) -> (e: usize)
    requires
        n == text@.len(),
        start <= n,
    ensures
        e as int == spec_ident_end(text@, start as int),
        start <= e <= n,
{
    let mut i = start;
    while i < n && is_alphnumder(text.get_char(i))
        invariant
            n == text@.len(),
            start <= i <= n,
            spec_ident_end(text@, start as int) == spec_ident_end(text@, i as int),
        decreases n - i,
    {
        i = i + 1;
    }
    i
}

/// Whether a character is a decimal digit.
fn is_digit_char(c: char) -> (r: bool)
    ensures
        r == spec_is_digit(c),
{
    '0' <= c && c <= '9'
}

/// Scan a digit run starting at `start`.
fn digits_end(text: &str, n: usize, start: usize) -> (e: usize)
    requires
        n == text@.len(),
        start <= n,
    ensures
        e as int == spec_digits_end(text@, start as int),
        start <= e <= n,
{
    let mut i = start;
    while i < n && is_digit_char(text.get_char(i))
        invariant
            n == text@.len(),
            start <= i <= n,
            spec_digits_end(text@, start as int) == spec_digits_end(text@, i as int),
        decreases n - i,
    {
        i = i + 1;
    }
    i
}

/// The value of the digit run `text[start..e)`, or `None` when it exceeds
/// the machine word.
fn digits_value(text: &str, start: usize, e: usize) -> (r: Option<usize>)
    requires
        start <= e <= text@.len(),
        forall|k: int| start <= k < e ==> spec_is_digit(#[trigger] text@[k]),
    ensures
        match r {
            Some(v) => v as int == spec_digits_val(text@, start as int, e as int),
            None => spec_digits_val(text@, start as int, e as int) > usize::MAX,
        },
{
    let mut acc: usize = 0;
    let mut k = start;
    while k < e
        invariant
            start <= k <= e <= text@.len(),
            forall|j: int| start <= j < e ==> spec_is_digit(#[trigger] text@[j]),
            acc as int == spec_digits_val(text@, start as int, k as int),
        decreases e - k,
    {
        let c = text.get_char(k);
        let d = (c as u32) - ('0' as u32);
        proof {
            lemma_digits_val_mono(text@, start as int, k + 1, e as int);
            lemma_digits_val_nonneg(text@, start as int, k as int);
        }
        let scaled = match acc.checked_mul(10) {
            Some(x) => x,
            None => {
                return None;
            },
        };
        let next = match scaled.checked_add(d as usize) {
            Some(x) => x,
            None => {
                return None;
            },
        };
        acc = next;
        k = k + 1;
    }
    Some(acc)
}

/// Parse an access path from its textual form; `None` when the text does
/// not match the grammar in full.
pub fn access_expr(text: &str) -> (r: Option<Path>)
    ensures
        match r {
            Some(p) => spec_parse_path(text@) == Some(p@),
            None => spec_parse_path(text@) is None,
        },
{
    let ghost s = text@;
    let n = text.unicode_len();
    let star = n > 0 && text.get_char(0) == '*';
    let b: usize = if star {
        1
    } else {
        0
    };
    if b >= n || !is_alphunder(text.get_char(b)) {
        return None;
    }
    let e0 = ident_end(text, n, b + 1);
    let base = text.substring_char(b, e0).to_owned();
    let mut units: Vec<Indirection> = Vec::new();
    units.push(Indirection::Field(base));
    let mut i = e0;
    while i < n
        invariant
            n == s.len(),
            i <= n,
            s == text@,
            b == (if s.len() > 0 && s[0] == '*' { 1int } else { 0int }),
            b < n,
            b as int + 1 <= e0 <= n,
            e0 as int == spec_ident_end(s, b as int + 1),
            units@.len() >= 1,
            units@.map_values(|u: Indirection| u@)[0] == IndirectionView::Field(
                s.subrange(b as int, e0 as int),
            ),
            ({
                let uv = units@.map_values(|u: Indirection| u@);
                match spec_units(s, i as int) {
                    Some(rest) => spec_units(s, e0 as int) == Some(uv.skip(1) + rest),
                    None => spec_units(s, e0 as int) is None,
                }
            }),
        decreases n - i,
    {
        let ghost uv0 = units@.map_values(|u: Indirection| u@);
        let c = text.get_char(i);
        if c == '.' {
            if i + 1 >= n || !is_alphunder(text.get_char(i + 1)) {
                return None;
            }
            let e = ident_end(text, n, i + 2);
            let name = text.substring_char(i + 1, e).to_owned();
            units.push(Indirection::Field(name));
            proof {
                let uv = units@.map_values(|u: Indirection| u@);
                assert(uv =~= uv0.push(IndirectionView::Field(s.subrange(i + 1, e as int))));
                match spec_units(s, e as int) {
                    Some(rest) => {
                        assert(uv0.skip(1) + (seq![
                            IndirectionView::Field(s.subrange(i + 1, e as int)),
                        ] + rest) =~= uv.skip(1) + rest);
                    },
                    None => {},
                }
            }
            i = e;
        } else if c == '[' {
            let e = digits_end(text, n, i + 1);
            if e == i + 1 || e >= n || !(text.get_char(e) == ']') {
                return None;
            }
            proof {
                assert forall|k: int| i + 1 <= k < e implies spec_is_digit(#[trigger] s[k]) by {
                    lemma_digits_run(s, i + 1, k);
                }
            }
            let val = match digits_value(text, i + 1, e) {
                Some(v) => v,
                None => {
                    return None;
                },
            };
            units.push(Indirection::Index(val));
            proof {
                let uv = units@.map_values(|u: Indirection| u@);
                assert(uv =~= uv0.push(IndirectionView::Index(val as int)));
                match spec_units(s, e + 1) {
                    Some(rest) => {
                        assert(uv0.skip(1) + (seq![IndirectionView::Index(val as int)] + rest)
                            =~= uv.skip(1) + rest);
                    },
                    None => {},
                }
            }
            i = e + 1;
        } else if c == '-' {
            if n - i <= 2 || !(text.get_char(i + 1) == '>') || !is_alphunder(
                text.get_char(i + 2),
            ) {
                return None;
            }
            let e = ident_end(text, n, i + 3);
            let name = text.substring_char(i + 2, e).to_owned();
            units.push(Indirection::Arrow(name));
            proof {
                let uv = units@.map_values(|u: Indirection| u@);
                assert(uv =~= uv0.push(IndirectionView::Arrow(s.subrange(i + 2, e as int))));
                match spec_units(s, e as int) {
                    Some(rest) => {
                        assert(uv0.skip(1) + (seq![
                            IndirectionView::Arrow(s.subrange(i + 2, e as int)),
                        ] + rest) =~= uv.skip(1) + rest);
                    },
                    None => {},
                }
            }
            i = e;
        } else {
            return None;
        }
    }
    if star {
        units.push(Indirection::Deref);
    }
    let p = Path(units);
    proof {
        let uv = p@;
        let tail = spec_units(s, e0 as int)->Some_0;
        if star {
            assert(uv =~= seq![IndirectionView::Field(s.subrange(b as int, e0 as int))] + tail
                + seq![IndirectionView::Deref]);
        } else {
            assert(uv =~= seq![IndirectionView::Field(s.subrange(b as int, e0 as int))] + tail
                + Seq::<IndirectionView>::empty());
        }
    }
    Some(p)
}

} // verus!
