//! The stylesheet grammar: a CSS subset with selectors (element, `#id`,
//! `.class`, `*`, `:pseudo`, descendant whitespace and `>` for the direct
//! parent) and typed declarations.  A malformed declaration is skipped and
//! reported; it never aborts the sheet.
//!
//! Numeric values are parsed into thousandths (fixed point) and clamped to
//! the bounds the style engine guarantees, so every parsed value is
//! well-formed by construction.

use vstd::prelude::*;
use crate::color::Color;
use crate::color::css_color;
use crate::color::spec_css_color;
use crate::color::str_eq;
use crate::style_types::BorderCornerShape;
use crate::style_types::BoxShadow;
use crate::style_types::CursorIcon;
use crate::style_types::Display;
use crate::style_types::FamilyOwned;
use crate::style_types::FontStyle;
use crate::style_types::LayoutType;
use crate::style_types::Overflow;
use crate::style_types::PositionType;
use crate::style_types::PropType;
use crate::style_types::Property;
use crate::style_types::Selector;
use crate::style_types::SelectorRelation;
use crate::style_types::Transition;
use crate::style_types::Visibility;
use crate::style_types::Weight;
use crate::style_types::PSEUDO_HOVER;
use crate::style_types::PSEUDO_OVER;
use crate::style_types::PSEUDO_ACTIVE;
use crate::style_types::PSEUDO_FOCUS;
use crate::style_types::PSEUDO_DISABLED;
use crate::style_types::PSEUDO_CHECKED;
use crate::style_types::PSEUDO_SELECTED;
use crate::style_types::PSEUDO_CUSTOM;
use crate::style_types::PSEUDO_FOCUS_WITHIN;
use crate::style_types::PSEUDO_FOCUS_VISIBLE;
use crate::style_types::PSEUDO_ROOT;
use crate::units::Units;
use crate::units::PCT_MAX;
use crate::units::UNIT_MAX;

verus! {

broadcast use vstd::std_specs::vec::group_vec_axioms;

/// Why a declaration or selector was rejected.
#[derive(Debug, Clone, PartialEq, Eq)]
pub enum CustomParseError {
    InvalidLengthUnits(String),
    InvalidValue(String),
    UnrecognisedColorName(String),
    InvalidColorHex(String),
    InvalidStringName(String),
    UnrecognisedPseudoclass(String),
}

/// One lexical token of the stylesheet text.
#[derive(Debug, Clone, PartialEq, Eq)]
pub enum Token {
    Ident(String),
    Hash(String),
    QuotedString(String),
    /// A bare number, in thousandths.
    Number(i64),
    /// A percentage, in thousandths of a percent.
    Percentage(i64),
    /// A number with a unit, in thousandths.
    Dimension(i64, String),
    Colon,
    Semicolon,
    Comma,
    OpenBrace,
    CloseBrace,
    Delim(char),
    Space,
}

impl Token {
    /// Numeric payloads stay within the style engine's bounds.
    pub open spec fn wf(self) -> bool {
        match self {
            Token::Number(v) => -UNIT_MAX <= v <= UNIT_MAX,
            Token::Percentage(p) => -PCT_MAX <= p <= PCT_MAX,
            Token::Dimension(v, _) => -UNIT_MAX <= v <= UNIT_MAX,
            _ => true,
        }
    }
}

pub open spec fn spec_is_space(c: char) -> bool {
    c == ' ' || c == '\t' || c == '\n' || c == '\r'
}

pub open spec fn spec_is_digit(c: char) -> bool {
    '0' <= c && c <= '9'
}

pub open spec fn spec_is_ident_char(c: char) -> bool {
    ('a' <= c && c <= 'z') || ('A' <= c && c <= 'Z') || spec_is_digit(c) || c == '-' || c == '_'
}

fn is_space(c: char) -> (r: bool)
    ensures
        r == spec_is_space(c),
{
    c == ' ' || c == '\t' || c == '\n' || c == '\r'
}

fn is_digit(c: char) -> (r: bool)
    ensures
        r == spec_is_digit(c),
{
    '0' <= c && c <= '9'
}

fn is_ident_char(c: char) -> (r: bool)
    ensures
        r == spec_is_ident_char(c),
{
    ('a' <= c && c <= 'z') || ('A' <= c && c <= 'Z') || is_digit(c) || c == '-' || c == '_'
}

/// The characters of a string slice, for indexed scanning.
fn str_chars(s: &str) -> (r: Vec<char>)
    ensures
        r@ == s@,
{
    let n = s.unicode_len();
    let mut r: Vec<char> = Vec::new();
    let mut i: usize = 0;
    while i < n
        invariant
            n == s@.len(),
            i <= n,
            r@ == s@.take(i as int),
        decreases n - i,
    {
        let c = s.get_char(i);
        r.push(c);
        proof {
            assert(r@ =~= s@.take(i + 1));
        }
        i += 1;
    }
    proof {
        assert(s@.take(n as int) =~= s@);
    }
    r
}

/// The whole part of a number: digits folded left to right, clamped at
/// `cap`; gives the value and the position after the digits.
pub open spec fn spec_scan_whole(cs: Seq<char>, i: int, whole: int, cap: int) -> (int, int)
    decreases cs.len() - i,
{
    if 0 <= i < cs.len() && spec_is_digit(cs[i]) {
        let d = cs[i] as u32 - 48;
        let w2 = if whole <= (cap - 9) / 10 {
            if whole * 10 + d > cap {
                cap
            } else {
                whole * 10 + d
            }
        } else {
            cap
        };
        spec_scan_whole(cs, i + 1, w2, cap)
    } else {
        (whole, i)
    }
}

/// The fractional part: up to three digits of precision, later digits
/// dropped; gives the value in thousandths and the position after.
pub open spec fn spec_scan_frac(cs: Seq<char>, i: int, frac: int, scale: int) -> (int, int)
    decreases cs.len() - i,
{
    if 0 <= i < cs.len() && spec_is_digit(cs[i]) {
        let d = cs[i] as u32 - 48;
        if scale > 0 {
            spec_scan_frac(cs, i + 1, frac + d * scale, scale / 10)
        } else {
            spec_scan_frac(cs, i + 1, frac, scale)
        }
    } else {
        (frac, i)
    }
}

/// A fixed-point number in thousandths from position `start`: the whole
/// part, then an optional point and fraction, the value clamped at `cap`;
/// gives the value and the position after the digits.
pub open spec fn spec_scan_number(cs: Seq<char>, start: int, cap: int) -> (int, int) {
    let w = spec_scan_whole(cs, start, 0, cap);
    if 0 <= w.1 < cs.len() && cs[w.1] == '.' {
        let f = spec_scan_frac(cs, w.1 + 1, 0, 100);
        let v = w.0 * 1000 + f.0;
        ((if v > cap {
            cap
        } else {
            v
        }), f.1)
    } else {
        let v = w.0 * 1000;
        ((if v > cap {
            cap
        } else {
            v
        }), w.1)
    }
}

/// A whole-part scan never moves backwards, nor past the end.
pub proof fn lemma_scan_whole_bounds(cs: Seq<char>, i: int, whole: int, cap: int)
    requires
        0 <= i <= cs.len(),
    ensures
        i <= spec_scan_whole(cs, i, whole, cap).1 <= cs.len(),
    decreases cs.len() - i,
{
    if 0 <= i < cs.len() && spec_is_digit(cs[i]) {
        let d = cs[i] as u32 - 48;
        let w2 = if whole <= (cap - 9) / 10 {
            if whole * 10 + d > cap {
                cap
            } else {
                whole * 10 + d
            }
        } else {
            cap
        };
        lemma_scan_whole_bounds(cs, i + 1, w2, cap);
    }
}

/// A fraction scan never moves backwards, nor past the end.
pub proof fn lemma_scan_frac_bounds(cs: Seq<char>, i: int, frac: int, scale: int)
    requires
        0 <= i <= cs.len(),
    ensures
        i <= spec_scan_frac(cs, i, frac, scale).1 <= cs.len(),
    decreases cs.len() - i,
{
    if 0 <= i < cs.len() && spec_is_digit(cs[i]) {
        let d = cs[i] as u32 - 48;
        if scale > 0 {
            lemma_scan_frac_bounds(cs, i + 1, frac + d * scale, scale / 10);
        } else {
            lemma_scan_frac_bounds(cs, i + 1, frac, scale);
        }
    }
}

/// A number scan never moves backwards, nor past the end.
pub proof fn lemma_scan_number_bounds(cs: Seq<char>, start: int, cap: int)
    requires
        0 <= start <= cs.len(),
    ensures
        start <= spec_scan_number(cs, start, cap).1 <= cs.len(),
{
    lemma_scan_whole_bounds(cs, start, 0, cap);
    let w = spec_scan_whole(cs, start, 0, cap);
    if 0 <= w.1 < cs.len() && cs[w.1] == '.' {
        lemma_scan_frac_bounds(cs, w.1 + 1, 0, 100);
    }
}

/// Scans digits from position `i`, accumulating a fixed-point value in
/// thousandths, clamped at `cap`.  Returns the value and the position after
/// the digits: exactly [`spec_scan_number`].
fn scan_number(cs: &Vec<char>, start: usize, cap: i64) -> (r: (i64, usize))
    requires
        start <= cs@.len(),
        9 <= cap <= UNIT_MAX,
    ensures
        start <= r.1 <= cs@.len(),
        0 <= r.0 <= cap,
        r.0 as int == spec_scan_number(cs@, start as int, cap as int).0,
        r.1 as int == spec_scan_number(cs@, start as int, cap as int).1,
    decreases cs@.len() - start,
{
    let n = cs.len();
    let mut i = start;
    let mut whole: i64 = 0;
    // Whole part.
    while i < n && is_digit(cs[i])
        invariant
            n == cs@.len(),
            start <= i <= n,
            0 <= whole <= cap,
            9 <= cap <= UNIT_MAX,
            spec_scan_whole(cs@, start as int, 0, cap as int) == spec_scan_whole(
                cs@,
                i as int,
                whole as int,
                cap as int,
            ),
        decreases n - i,
    {
        let d = (cs[i] as u32) - ('0' as u32);
        if whole <= (cap - 9) / 10 {
            whole = whole * 10 + (d as i64);
            if whole > cap {
                whole = cap;
            }
        } else {
            whole = cap;
        }
        i += 1;
    }
    proof {
        assert(spec_scan_whole(cs@, start as int, 0, cap as int) == (
            whole as int,
            i as int,
        ));
    }
    // Fractional part: up to three digits of precision.
    if i < n && cs[i] == '.' {
        let frac_start = i;
        i += 1;
        let mut scale: i64 = 100;
        let mut frac: i64 = 0;
        while i < n && is_digit(cs[i])
            invariant
                n == cs@.len(),
                frac_start < i <= n,
                0 <= frac <= 999,
                scale == 100 || scale == 10 || scale == 1 || scale == 0,
                frac + 10 * scale <= 1000,
                spec_scan_frac(cs@, frac_start + 1, 0, 100) == spec_scan_frac(
                    cs@,
                    i as int,
                    frac as int,
                    scale as int,
                ),
            decreases n - i,
        {
            let d = (cs[i] as u32) - ('0' as u32);
            proof {
                assert(d <= 9);
                assert((d as i64) * scale <= 9 * scale) by (nonlinear_arith)
                    requires
                        0 <= d <= 9,
                        0 <= scale,
                ;
                assert((d as i64) * scale >= 0) by (nonlinear_arith)
                    requires
                        0 <= d,
                        0 <= scale,
                ;
            }
            if scale > 0 {
                frac = frac + (d as i64) * scale;
                scale = scale / 10;
            }
            i += 1;
        }
        proof {
            assert(whole * 1000 <= cap * 1000) by (nonlinear_arith)
                requires
                    0 <= whole <= cap,
            ;
            assert(spec_scan_frac(cs@, frac_start + 1, 0, 100) == (frac as int, i as int));
        }
        let mut value = whole * 1000 + frac;
        if value > cap {
            value = cap;
        }
        (value, i)
    } else {
        proof {
            assert(whole * 1000 <= cap * 1000) by (nonlinear_arith)
                requires
                    0 <= whole <= cap,
            ;
        }
        let mut value = whole * 1000;
        if value > cap {
            value = cap;
        }
        (value, i)
    }
}

/// A token's content, over plain sequences, for stating what the tokenizer
/// returns.
pub enum TokenSpec {
    Ident(Seq<char>),
    Hash(Seq<char>),
    QuotedString(Seq<char>),
    Number(i64),
    Percentage(i64),
    Dimension(i64, Seq<char>),
    Colon,
    Semicolon,
    Comma,
    OpenBrace,
    CloseBrace,
    Delim(char),
    Space,
}

/// A token's content.
pub open spec fn tok_view(t: Token) -> TokenSpec {
    match t {
        Token::Ident(s) => TokenSpec::Ident(s@),
        Token::Hash(s) => TokenSpec::Hash(s@),
        Token::QuotedString(s) => TokenSpec::QuotedString(s@),
        Token::Number(v) => TokenSpec::Number(v),
        Token::Percentage(p) => TokenSpec::Percentage(p),
        Token::Dimension(v, u) => TokenSpec::Dimension(v, u@),
        Token::Colon => TokenSpec::Colon,
        Token::Semicolon => TokenSpec::Semicolon,
        Token::Comma => TokenSpec::Comma,
        Token::OpenBrace => TokenSpec::OpenBrace,
        Token::CloseBrace => TokenSpec::CloseBrace,
        Token::Delim(c) => TokenSpec::Delim(c),
        Token::Space => TokenSpec::Space,
    }
}

/// The position after a run of whitespace characters.
pub open spec fn spec_span_spaces(cs: Seq<char>, i: int) -> int
    decreases cs.len() - i,
{
    if 0 <= i < cs.len() && spec_is_space(cs[i]) {
        spec_span_spaces(cs, i + 1)
    } else {
        i
    }
}

/// The position after a run of identifier characters.
pub open spec fn spec_span_ident(cs: Seq<char>, i: int) -> int
    decreases cs.len() - i,
{
    if 0 <= i < cs.len() && spec_is_ident_char(cs[i]) {
        spec_span_ident(cs, i + 1)
    } else {
        i
    }
}

/// The position of the closing quote at or after `i`, or the end.
pub open spec fn spec_span_to_quote(cs: Seq<char>, i: int, q: char) -> int
    decreases cs.len() - i,
{
    if 0 <= i < cs.len() && cs[i] != q {
        spec_span_to_quote(cs, i + 1, q)
    } else {
        i
    }
}

/// The position after the comment closer `*/` at or after `i`, or the end.
pub open spec fn spec_skip_comment(cs: Seq<char>, i: int) -> int
    decreases cs.len() - i,
{
    if !(0 <= i < cs.len()) {
        cs.len() as int
    } else if cs[i] == '*' && i + 1 < cs.len() && cs[i + 1] == '/' {
        i + 2
    } else {
        spec_skip_comment(cs, i + 1)
    }
}

/// A character span never moves backwards, nor past the end.
pub proof fn lemma_span_bounds(cs: Seq<char>, i: int, q: char)
    requires
        0 <= i <= cs.len(),
    ensures
        i <= spec_span_spaces(cs, i) <= cs.len(),
        i <= spec_span_ident(cs, i) <= cs.len(),
        i <= spec_span_to_quote(cs, i, q) <= cs.len(),
        i <= spec_skip_comment(cs, i) <= cs.len(),
    decreases cs.len() - i,
{
    if i < cs.len() {
        lemma_span_bounds(cs, i + 1, q);
    }
}

/// A single punctuation character's token: the bracket, colon, separator
/// or, failing those, a lone delimiter.
pub open spec fn spec_single_token(c: char) -> TokenSpec {
    if c == ':' {
        TokenSpec::Colon
    } else if c == ';' {
        TokenSpec::Semicolon
    } else if c == ',' {
        TokenSpec::Comma
    } else if c == '{' {
        TokenSpec::OpenBrace
    } else if c == '}' {
        TokenSpec::CloseBrace
    } else {
        TokenSpec::Delim(c)
    }
}

/// The tokens of the text from position `i`: runs of whitespace collapse
/// into one space token, comments disappear, numbers are scanned in
/// thousandths and clamped, a sign or point starts a number only before a
/// digit, a trailing identifier makes a dimension, `#` and quotes take the
/// following run, and any other character is a delimiter.
pub open spec fn spec_tokenize_from(cs: Seq<char>, i: int) -> Seq<TokenSpec>
    decreases cs.len() - i,
    when 0 <= i
{
    if i >= cs.len() {
        Seq::empty()
    } else {
        let c = cs[i];
        if spec_is_space(c) {
            proof {
                lemma_span_bounds(cs, i + 1, c);
            }
            seq![TokenSpec::Space] + spec_tokenize_from(cs, spec_span_spaces(cs, i + 1))
        } else if c == '/' && i + 1 < cs.len() && cs[i + 1] == '*' {
            proof {
                lemma_span_bounds(cs, i + 2, c);
            }
            spec_tokenize_from(cs, spec_skip_comment(cs, i + 2))
        } else if spec_is_digit(c) || (c == '-' && i + 1 < cs.len() && spec_is_digit(cs[i + 1]))
            || (c == '.' && i + 1 < cs.len() && spec_is_digit(cs[i + 1])) {
            let neg = c == '-';
            let numstart = if neg {
                i + 1
            } else {
                i
            };
            let m = spec_scan_number(cs, numstart, UNIT_MAX as int);
            proof {
                lemma_scan_number_bounds(cs, numstart, UNIT_MAX as int);
                lemma_span_bounds(cs, m.1, c);
            }
            if m.1 <= numstart {
                seq![TokenSpec::Delim(c)] + spec_tokenize_from(cs, i + 1)
            } else if m.1 < cs.len() && cs[m.1] == '%' {
                let p0 = if neg {
                    -m.0
                } else {
                    m.0
                };
                let p1 = if p0 > PCT_MAX {
                    PCT_MAX as int
                } else {
                    p0
                };
                let p = if p1 < -PCT_MAX {
                    -(PCT_MAX as int)
                } else {
                    p1
                };
                seq![TokenSpec::Percentage(p as i64)] + spec_tokenize_from(cs, m.1 + 1)
            } else {
                let unit_end = spec_span_ident(cs, m.1);
                let v = if neg {
                    -m.0
                } else {
                    m.0
                };
                if unit_end > m.1 {
                    seq![TokenSpec::Dimension(v as i64, cs.subrange(m.1, unit_end))]
                        + spec_tokenize_from(cs, unit_end)
                } else {
                    seq![TokenSpec::Number(v as i64)] + spec_tokenize_from(cs, m.1)
                }
            }
        } else if spec_is_ident_char(c) {
            let j = spec_span_ident(cs, i);
            proof {
                lemma_span_bounds(cs, i + 1, c);
            }
            seq![TokenSpec::Ident(cs.subrange(i, j))] + spec_tokenize_from(cs, j)
        } else if c == '#' {
            let j = spec_span_ident(cs, i + 1);
            proof {
                lemma_span_bounds(cs, i + 1, c);
            }
            seq![TokenSpec::Hash(cs.subrange(i + 1, j))] + spec_tokenize_from(cs, j)
        } else if c == '"' || c == '\'' {
            let j = spec_span_to_quote(cs, i + 1, c);
            proof {
                lemma_span_bounds(cs, i + 1, c);
            }
            seq![TokenSpec::QuotedString(cs.subrange(i + 1, j))] + spec_tokenize_from(
                cs,
                if j < cs.len() {
                    j + 1
                } else {
                    cs.len() as int
                },
            )
        } else {
            seq![spec_single_token(c)] + spec_tokenize_from(cs, i + 1)
        }
    }
}

/// The tokens of the whole text.
pub open spec fn spec_tokenize(s: Seq<char>) -> Seq<TokenSpec> {
    spec_tokenize_from(s, 0)
}

/// Appends a well-formed token, keeping the whole list well-formed.
fn push_token(out: &mut Vec<Token>, t: Token)
    requires
        forall|k: int| 0 <= k < old(out)@.len() ==> (#[trigger] old(out)@[k]).wf(),
        t.wf(),
    ensures
        final(out)@ == old(out)@.push(t),
        forall|k: int| 0 <= k < final(out)@.len() ==> (#[trigger] final(out)@[k]).wf(),
{
    out.push(t);
    proof {
        assert forall|k: int| 0 <= k < out@.len() implies (#[trigger] out@[k]).wf() by {
            if k < out@.len() - 1 {
                assert(out@[k] == old(out)@[k]);
            }
        }
    }
}

/// Appends a well-formed token and keeps the token views in step: the view
/// of the new list is the old views plus the new token's view.
fn push_viewed(out: &mut Vec<Token>, t: Token)
    requires
        forall|k: int| 0 <= k < old(out)@.len() ==> (#[trigger] old(out)@[k]).wf(),
        t.wf(),
    ensures
        final(out)@ == old(out)@.push(t),
        forall|k: int| 0 <= k < final(out)@.len() ==> (#[trigger] final(out)@[k]).wf(),
        final(out)@.map_values(|x: Token| tok_view(x)) == old(out)@.map_values(
            |x: Token| tok_view(x),
        ).push(tok_view(t)),
{
    let ghost tv = tok_view(t);
    push_token(out, t);
    proof {
        assert(out@.map_values(|x: Token| tok_view(x)) =~= old(out)@.map_values(
            |x: Token| tok_view(x),
        ).push(tv));
    }
}

/// One scanned token joined on the left is the same as pushing it onto what
/// came before.
pub proof fn lemma_step_concat(m: Seq<TokenSpec>, tv: TokenSpec, rest: Seq<TokenSpec>)
    ensures
        m + (seq![tv] + rest) == m.push(tv) + rest,
{
    assert(m + (seq![tv] + rest) =~= m.push(tv) + rest);
}

/// Turns the stylesheet text into tokens.  Runs of whitespace collapse into
/// one `Space` token; comments disappear; every numeric token is clamped
/// into the style engine's bounds, so all tokens are well-formed.  The
/// tokens are exactly [`spec_tokenize`] of the text.
#[verifier::rlimit(100)]
pub fn tokenize(s: &str) -> (r: Vec<Token>)
    ensures
        forall|i: int| 0 <= i < r@.len() ==> (#[trigger] r@[i]).wf(),
        r@.map_values(|t: Token| tok_view(t)) == spec_tokenize(s@),
{
    let cs = str_chars(s);
    let n = cs.len();
    let mut out: Vec<Token> = Vec::new();
    let mut i: usize = 0;
    proof {
        assert(out@.map_values(|t: Token| tok_view(t)) =~= Seq::<TokenSpec>::empty());
        assert(spec_tokenize(s@) =~= out@.map_values(|t: Token| tok_view(t))
            + spec_tokenize_from(s@, 0));
    }
    while i < n
        invariant
            n == cs@.len(),
            cs@ == s@,
            i <= n,
            forall|t: int| 0 <= t < out@.len() ==> (#[trigger] out@[t]).wf(),
            spec_tokenize(s@) == out@.map_values(|t: Token| tok_view(t)) + spec_tokenize_from(
                s@,
                i as int,
            ),
        decreases n - i,
    {
        let ghost ipre = i as int;
        let ghost mpre = out@.map_values(|t: Token| tok_view(t));
        let c = cs[i];
        if is_space(c) {
            i += 1;
            let ghost istart = i as int;
            while i < n && is_space(cs[i])
                invariant
                    n == cs@.len(),
                    istart <= i as int <= n,
                    spec_span_spaces(cs@, istart) == spec_span_spaces(cs@, i as int),
                    forall|t2: int| 0 <= t2 < out@.len() ==> (#[trigger] out@[t2]).wf(),
                decreases n - i,
            {
                i += 1;
            }
            push_viewed(&mut out, Token::Space);
            proof {
                assert(spec_span_spaces(cs@, istart) == i as int);
                assert(out@.map_values(|t: Token| tok_view(t)) == mpre.push(TokenSpec::Space));
                assert(spec_tokenize_from(s@, ipre) == seq![TokenSpec::Space]
                    + spec_tokenize_from(s@, i as int));
                lemma_step_concat(mpre, TokenSpec::Space, spec_tokenize_from(s@, i as int));
            }
        } else if c == '/' && i + 1 < n && cs[i + 1] == '*' {
            // Comment: skip to the closing marker.
            i += 2;
            let ghost istart = i as int;
            while i < n
                invariant_except_break
                    spec_skip_comment(cs@, istart) == spec_skip_comment(cs@, i as int),
                invariant
                    n == cs@.len(),
                    istart <= i as int <= n,
                    forall|t2: int| 0 <= t2 < out@.len() ==> (#[trigger] out@[t2]).wf(),
                ensures
                    i as int == spec_skip_comment(cs@, istart),
                decreases n - i,
            {
                if cs[i] == '*' && i + 1 < n && cs[i + 1] == '/' {
                    i += 2;
                    break ;
                }
                i += 1;
            }
            proof {
                assert(spec_tokenize_from(s@, ipre) == spec_tokenize_from(s@, i as int));
            }
        } else if is_digit(c) || (c == '-' && i + 1 < n && is_digit(cs[i + 1])) || (c == '.' && i
            + 1 < n && is_digit(cs[i + 1])) {
            let neg = c == '-';
            let numstart = if neg {
                i + 1
            } else {
                i
            };
            let (mag, after) = scan_number(&cs, numstart, UNIT_MAX);
            let mut j = after;
            proof {
                assert(numstart < n);
            }
            if j <= numstart {
                // Defensive: no progress means a stray character.
                push_viewed(&mut out, Token::Delim(c));
                i += 1;
                proof {
                    assert(out@.map_values(|t: Token| tok_view(t)) == mpre.push(
                        TokenSpec::Delim(c),
                    ));
                    assert(spec_tokenize_from(s@, ipre) == seq![TokenSpec::Delim(c)]
                        + spec_tokenize_from(s@, i as int));
                    lemma_step_concat(mpre, TokenSpec::Delim(c), spec_tokenize_from(s@, i as int));
                }
            } else if j < n && cs[j] == '%' {
                let mut p = if neg {
                    -mag
                } else {
                    mag
                };
                if p > PCT_MAX {
                    p = PCT_MAX;
                }
                if p < -PCT_MAX {
                    p = -PCT_MAX;
                }
                // Percent: the value scales by one hundred.
                push_viewed(&mut out, Token::Percentage(p));
                i = j + 1;
                proof {
                    assert(out@.map_values(|t: Token| tok_view(t)) == mpre.push(
                        TokenSpec::Percentage(p),
                    ));
                    assert(spec_tokenize_from(s@, ipre) == seq![TokenSpec::Percentage(p)]
                        + spec_tokenize_from(s@, i as int));
                    lemma_step_concat(mpre, TokenSpec::Percentage(p), spec_tokenize_from(s@, i as int));
                }
            } else {
                // A trailing identifier makes it a dimension.
                let unit_start = j;
                while j < n && is_ident_char(cs[j])
                    invariant
                        n == cs@.len(),
                        unit_start <= j <= n,
                        spec_span_ident(cs@, unit_start as int) == spec_span_ident(
                            cs@,
                            j as int,
                        ),
                        forall|t2: int| 0 <= t2 < out@.len() ==> (#[trigger] out@[t2]).wf(),
                    decreases n - j,
                {
                    j += 1;
                }
                proof {
                    assert(spec_span_ident(cs@, unit_start as int) == j as int);
                }
                let v = if neg {
                    -mag
                } else {
                    mag
                };
                if j > unit_start {
                    let unit = s.substring_char(unit_start, j).to_owned();
                    proof {
                        assert(Token::Dimension(v, unit).wf());
                    }
                    push_viewed(&mut out, Token::Dimension(v, unit));
                    i = j;
                    proof {
                        let tv = TokenSpec::Dimension(v, cs@.subrange(unit_start as int, j as int));
                        assert(out@.map_values(|t: Token| tok_view(t)) == mpre.push(tv));
                        assert(spec_tokenize_from(s@, ipre) == seq![tv] + spec_tokenize_from(
                            s@,
                            i as int,
                        ));
                        lemma_step_concat(mpre, tv, spec_tokenize_from(s@, i as int));
                    }
                } else {
                    proof {
                        assert(Token::Number(v).wf());
                    }
                    push_viewed(&mut out, Token::Number(v));
                    i = j;
                    proof {
                        assert(out@.map_values(|t: Token| tok_view(t)) == mpre.push(
                            TokenSpec::Number(v),
                        ));
                        assert(spec_tokenize_from(s@, ipre) == seq![TokenSpec::Number(v)]
                            + spec_tokenize_from(s@, i as int));
                        lemma_step_concat(mpre, TokenSpec::Number(v), spec_tokenize_from(s@, i as int));
                    }
                }
            }
        } else if is_ident_char(c) {
            let start = i;
            let mut j = i;
            while j < n && is_ident_char(cs[j])
                invariant
                    n == cs@.len(),
                    start <= j <= n,
                    spec_span_ident(cs@, start as int) == spec_span_ident(cs@, j as int),
                    forall|t2: int| 0 <= t2 < out@.len() ==> (#[trigger] out@[t2]).wf(),
                decreases n - j,
            {
                j += 1;
            }
            let name = s.substring_char(start, j).to_owned();
            push_viewed(&mut out, Token::Ident(name));
            i = j;
            proof {
                assert(spec_span_ident(cs@, start as int) == j as int);
                let tv = TokenSpec::Ident(cs@.subrange(start as int, j as int));
                assert(out@.map_values(|t: Token| tok_view(t)) == mpre.push(tv));
                assert(spec_tokenize_from(s@, ipre) == seq![tv] + spec_tokenize_from(
                    s@,
                    i as int,
                ));
                lemma_step_concat(mpre, tv, spec_tokenize_from(s@, i as int));
            }
        } else if c == '#' {
            let start = i + 1;
            let mut j = i + 1;
            while j < n && is_ident_char(cs[j])
                invariant
                    n == cs@.len(),
                    start <= j <= n,
                    spec_span_ident(cs@, start as int) == spec_span_ident(cs@, j as int),
                    forall|t2: int| 0 <= t2 < out@.len() ==> (#[trigger] out@[t2]).wf(),
                decreases n - j,
            {
                j += 1;
            }
            let name = s.substring_char(start, j).to_owned();
            push_viewed(&mut out, Token::Hash(name));
            i = j;
            proof {
                assert(spec_span_ident(cs@, start as int) == j as int);
                let tv = TokenSpec::Hash(cs@.subrange(start as int, j as int));
                assert(out@.map_values(|t: Token| tok_view(t)) == mpre.push(tv));
                assert(spec_tokenize_from(s@, ipre) == seq![tv] + spec_tokenize_from(
                    s@,
                    i as int,
                ));
                lemma_step_concat(mpre, tv, spec_tokenize_from(s@, i as int));
            }
        } else if c == '"' || c == '\'' {
            let quote = c;
            let start = i + 1;
            let mut j = i + 1;
            while j < n && cs[j] != quote
                invariant
                    n == cs@.len(),
                    start <= j <= n,
                    spec_span_to_quote(cs@, start as int, quote) == spec_span_to_quote(
                        cs@,
                        j as int,
                        quote,
                    ),
                    forall|t2: int| 0 <= t2 < out@.len() ==> (#[trigger] out@[t2]).wf(),
                decreases n - j,
            {
                j += 1;
            }
            let body = s.substring_char(start, j).to_owned();
            push_viewed(&mut out, Token::QuotedString(body));
            i = if j < n {
                j + 1
            } else {
                n
            };
            proof {
                assert(spec_span_to_quote(cs@, start as int, quote) == j as int);
                let tv = TokenSpec::QuotedString(cs@.subrange(start as int, j as int));
                assert(out@.map_values(|t: Token| tok_view(t)) == mpre.push(tv));
                assert(spec_tokenize_from(s@, ipre) == seq![tv] + spec_tokenize_from(
                    s@,
                    i as int,
                ));
                lemma_step_concat(mpre, tv, spec_tokenize_from(s@, i as int));
            }
        } else {
            let tok = if c == ':' {
                Token::Colon
            } else if c == ';' {
                Token::Semicolon
            } else if c == ',' {
                Token::Comma
            } else if c == '{' {
                Token::OpenBrace
            } else if c == '}' {
                Token::CloseBrace
            } else {
                Token::Delim(c)
            };
            let ghost tv = tok_view(tok);
            push_viewed(&mut out, tok);
            i += 1;
            proof {
                assert(tv == spec_single_token(c));
                assert(out@.map_values(|t: Token| tok_view(t)) == mpre.push(tv));
                assert(spec_tokenize_from(s@, ipre) == seq![tv] + spec_tokenize_from(
                    s@,
                    i as int,
                ));
                lemma_step_concat(mpre, tv, spec_tokenize_from(s@, i as int));
            }
        }
    }
    proof {
        assert(spec_tokenize_from(s@, n as int) =~= Seq::<TokenSpec>::empty());
        assert(out@.map_values(|t: Token| tok_view(t)) + Seq::<TokenSpec>::empty()
            =~= out@.map_values(|t: Token| tok_view(t)));
    }
    out
}

} // verus!

verus! {

/// The `display` keyword table.
pub open spec fn spec_parse_display(s: Seq<char>) -> Option<Display> {
    if s == "none"@ {
        Some(Display::Gone)
    } else if s == "flex"@ {
        Some(Display::Flex)
    } else {
        None
    }
}

/// Parses a `display` keyword.
pub fn parse_display(name: &str) -> (r: Option<Display>)
    ensures
        r == spec_parse_display(name@),
{
    if str_eq(name, "none") {
        Some(Display::Gone)
    } else if str_eq(name, "flex") {
        Some(Display::Flex)
    } else {
        None
    }
}

/// The `visibility` keyword table.
pub open spec fn spec_parse_visibility(s: Seq<char>) -> Option<Visibility> {
    if s == "visible"@ {
        Some(Visibility::Visible)
    } else if s == "hidden"@ {
        Some(Visibility::Invisible)
    } else {
        None
    }
}

/// Parses a `visibility` keyword.
pub fn parse_visibility(name: &str) -> (r: Option<Visibility>)
    ensures
        r == spec_parse_visibility(name@),
{
    if str_eq(name, "visible") {
        Some(Visibility::Visible)
    } else if str_eq(name, "hidden") {
        Some(Visibility::Invisible)
    } else {
        None
    }
}

/// The `overflow` keyword table.
pub open spec fn spec_parse_overflow(s: Seq<char>) -> Option<Overflow> {
    if s == "visible"@ {
        Some(Overflow::Visible)
    } else if s == "hidden"@ {
        Some(Overflow::Hidden)
    } else {
        None
    }
}

/// Parses a `overflow` keyword.
pub fn parse_overflow(name: &str) -> (r: Option<Overflow>)
    ensures
        r == spec_parse_overflow(name@),
{
    if str_eq(name, "visible") {
        Some(Overflow::Visible)
    } else if str_eq(name, "hidden") {
        Some(Overflow::Hidden)
    } else {
        None
    }
}

/// The `layout-type` keyword table.
pub open spec fn spec_parse_layout_type(s: Seq<char>) -> Option<LayoutType> {
    if s == "row"@ {
        Some(LayoutType::Row)
    } else if s == "column"@ {
        Some(LayoutType::Column)
    } else if s == "grid"@ {
        Some(LayoutType::Grid)
    } else {
        None
    }
}

/// Parses a `layout-type` keyword.
pub fn parse_layout_type(name: &str) -> (r: Option<LayoutType>)
    ensures
        r == spec_parse_layout_type(name@),
{
    if str_eq(name, "row") {
        Some(LayoutType::Row)
    } else if str_eq(name, "column") {
        Some(LayoutType::Column)
    } else if str_eq(name, "grid") {
        Some(LayoutType::Grid)
    } else {
        None
    }
}

/// The `position-type` keyword table.
pub open spec fn spec_parse_position_type(s: Seq<char>) -> Option<PositionType> {
    if s == "self-directed"@ {
        Some(PositionType::SelfDirected)
    } else if s == "parent-directed"@ {
        Some(PositionType::ParentDirected)
    } else {
        None
    }
}

/// Parses a `position-type` keyword.
pub fn parse_position_type(name: &str) -> (r: Option<PositionType>)
    ensures
        r == spec_parse_position_type(name@),
{
    if str_eq(name, "self-directed") {
        Some(PositionType::SelfDirected)
    } else if str_eq(name, "parent-directed") {
        Some(PositionType::ParentDirected)
    } else {
        None
    }
}

/// The `border-corner-shape` keyword table.
pub open spec fn spec_parse_border_corner_shape(s: Seq<char>) -> Option<BorderCornerShape> {
    if s == "round"@ {
        Some(BorderCornerShape::Round)
    } else if s == "bevel"@ {
        Some(BorderCornerShape::Bevel)
    } else {
        None
    }
}

/// Parses a `border-corner-shape` keyword.
pub fn parse_border_corner_shape(name: &str) -> (r: Option<BorderCornerShape>)
    ensures
        r == spec_parse_border_corner_shape(name@),
{
    if str_eq(name, "round") {
        Some(BorderCornerShape::Round)
    } else if str_eq(name, "bevel") {
        Some(BorderCornerShape::Bevel)
    } else {
        None
    }
}

/// The `font-style` keyword table.
pub open spec fn spec_parse_font_style(s: Seq<char>) -> Option<FontStyle> {
    if s == "normal"@ {
        Some(FontStyle::Normal)
    } else if s == "italic"@ {
        Some(FontStyle::Italic)
    } else if s == "oblique"@ {
        Some(FontStyle::Oblique)
    } else {
        None
    }
}

/// Parses a `font-style` keyword.
pub fn parse_font_style(name: &str) -> (r: Option<FontStyle>)
    ensures
        r == spec_parse_font_style(name@),
{
    if str_eq(name, "normal") {
        Some(FontStyle::Normal)
    } else if str_eq(name, "italic") {
        Some(FontStyle::Italic)
    } else if str_eq(name, "oblique") {
        Some(FontStyle::Oblique)
    } else {
        None
    }
}

/// The cursor keyword table.
pub open spec fn spec_parse_cursor(s: Seq<char>) -> Option<CursorIcon> {
    if s == "default"@ {
        Some(CursorIcon::Default)
    } else if s == "crosshair"@ {
        Some(CursorIcon::Crosshair)
    } else if s == "hand"@ {
        Some(CursorIcon::Hand)
    } else if s == "arrow"@ {
        Some(CursorIcon::Arrow)
    } else if s == "move"@ {
        Some(CursorIcon::Move)
    } else if s == "text"@ {
        Some(CursorIcon::Text)
    } else if s == "wait"@ {
        Some(CursorIcon::Wait)
    } else if s == "help"@ {
        Some(CursorIcon::Help)
    } else if s == "progress"@ {
        Some(CursorIcon::Progress)
    } else if s == "not-allowed"@ {
        Some(CursorIcon::NotAllowed)
    } else if s == "context-menu"@ {
        Some(CursorIcon::ContextMenu)
    } else if s == "cell"@ {
        Some(CursorIcon::Cell)
    } else if s == "vertical-text"@ {
        Some(CursorIcon::VerticalText)
    } else if s == "alias"@ {
        Some(CursorIcon::Alias)
    } else if s == "copy"@ {
        Some(CursorIcon::Copy)
    } else if s == "no-drop"@ {
        Some(CursorIcon::NoDrop)
    } else if s == "grab"@ {
        Some(CursorIcon::Grab)
    } else if s == "grabbing"@ {
        Some(CursorIcon::Grabbing)
    } else if s == "all-scroll"@ {
        Some(CursorIcon::AllScroll)
    } else if s == "zoom-in"@ {
        Some(CursorIcon::ZoomIn)
    } else if s == "zoom-out"@ {
        Some(CursorIcon::ZoomOut)
    } else if s == "e-resize"@ {
        Some(CursorIcon::EResize)
    } else if s == "n-resize"@ {
        Some(CursorIcon::NResize)
    } else if s == "ne-resize"@ {
        Some(CursorIcon::NeResize)
    } else if s == "nw-resize"@ {
        Some(CursorIcon::NwResize)
    } else if s == "s-resize"@ {
        Some(CursorIcon::SResize)
    } else if s == "se-resize"@ {
        Some(CursorIcon::SeResize)
    } else if s == "sw-resize"@ {
        Some(CursorIcon::SwResize)
    } else if s == "w-resize"@ {
        Some(CursorIcon::WResize)
    } else if s == "ew-resize"@ {
        Some(CursorIcon::EwResize)
    } else if s == "ns-resize"@ {
        Some(CursorIcon::NsResize)
    } else if s == "nesw-resize"@ {
        Some(CursorIcon::NeswResize)
    } else if s == "nwse-resize"@ {
        Some(CursorIcon::NwseResize)
    } else if s == "col-resize"@ {
        Some(CursorIcon::ColResize)
    } else if s == "row-resize"@ {
        Some(CursorIcon::RowResize)
    } else if s == "none"@ {
        Some(CursorIcon::Hidden)
    } else {
        None
    }
}

/// Parses a cursor keyword.
pub fn parse_cursor(name: &str) -> (r: Option<CursorIcon>)
    ensures
        r == spec_parse_cursor(name@),
{
    if str_eq(name, "default") {
        Some(CursorIcon::Default)
    } else if str_eq(name, "crosshair") {
        Some(CursorIcon::Crosshair)
    } else if str_eq(name, "hand") {
        Some(CursorIcon::Hand)
    } else if str_eq(name, "arrow") {
        Some(CursorIcon::Arrow)
    } else if str_eq(name, "move") {
        Some(CursorIcon::Move)
    } else if str_eq(name, "text") {
        Some(CursorIcon::Text)
    } else if str_eq(name, "wait") {
        Some(CursorIcon::Wait)
    } else if str_eq(name, "help") {
        Some(CursorIcon::Help)
    } else if str_eq(name, "progress") {
        Some(CursorIcon::Progress)
    } else if str_eq(name, "not-allowed") {
        Some(CursorIcon::NotAllowed)
    } else if str_eq(name, "context-menu") {
        Some(CursorIcon::ContextMenu)
    } else if str_eq(name, "cell") {
        Some(CursorIcon::Cell)
    } else if str_eq(name, "vertical-text") {
        Some(CursorIcon::VerticalText)
    } else if str_eq(name, "alias") {
        Some(CursorIcon::Alias)
    } else if str_eq(name, "copy") {
        Some(CursorIcon::Copy)
    } else if str_eq(name, "no-drop") {
        Some(CursorIcon::NoDrop)
    } else if str_eq(name, "grab") {
        Some(CursorIcon::Grab)
    } else if str_eq(name, "grabbing") {
        Some(CursorIcon::Grabbing)
    } else if str_eq(name, "all-scroll") {
        Some(CursorIcon::AllScroll)
    } else if str_eq(name, "zoom-in") {
        Some(CursorIcon::ZoomIn)
    } else if str_eq(name, "zoom-out") {
        Some(CursorIcon::ZoomOut)
    } else if str_eq(name, "e-resize") {
        Some(CursorIcon::EResize)
    } else if str_eq(name, "n-resize") {
        Some(CursorIcon::NResize)
    } else if str_eq(name, "ne-resize") {
        Some(CursorIcon::NeResize)
    } else if str_eq(name, "nw-resize") {
        Some(CursorIcon::NwResize)
    } else if str_eq(name, "s-resize") {
        Some(CursorIcon::SResize)
    } else if str_eq(name, "se-resize") {
        Some(CursorIcon::SeResize)
    } else if str_eq(name, "sw-resize") {
        Some(CursorIcon::SwResize)
    } else if str_eq(name, "w-resize") {
        Some(CursorIcon::WResize)
    } else if str_eq(name, "ew-resize") {
        Some(CursorIcon::EwResize)
    } else if str_eq(name, "ns-resize") {
        Some(CursorIcon::NsResize)
    } else if str_eq(name, "nesw-resize") {
        Some(CursorIcon::NeswResize)
    } else if str_eq(name, "nwse-resize") {
        Some(CursorIcon::NwseResize)
    } else if str_eq(name, "col-resize") {
        Some(CursorIcon::ColResize)
    } else if str_eq(name, "row-resize") {
        Some(CursorIcon::RowResize)
    } else if str_eq(name, "none") {
        Some(CursorIcon::Hidden)
    } else {
        None
    }
}

} // verus!

verus! {

/// The value of one hex digit, or `None`.
pub open spec fn spec_hex_digit(c: char) -> Option<u8> {
    if '0' <= c && c <= '9' {
        Some(((c as u32) - 48) as u8)
    } else if 'a' <= c && c <= 'f' {
        Some(((c as u32) - 87) as u8)
    } else if 'A' <= c && c <= 'F' {
        Some(((c as u32) - 55) as u8)
    } else {
        None
    }
}

fn hex_digit(c: char) -> (r: Option<u8>)
    ensures
        r == spec_hex_digit(c),
{
    if '0' <= c && c <= '9' {
        Some(((c as u32) - 48) as u8)
    } else if 'a' <= c && c <= 'f' {
        Some(((c as u32) - 87) as u8)
    } else if 'A' <= c && c <= 'F' {
        Some(((c as u32) - 55) as u8)
    } else {
        None
    }
}

/// A pair of hex digits as one byte.
pub open spec fn spec_hex_pair(a: char, b: char) -> Option<u8> {
    match (spec_hex_digit(a), spec_hex_digit(b)) {
        (Some(x), Some(y)) => Some((x * 16 + y) as u8),
        _ => None,
    }
}

fn hex_pair(a: char, b: char) -> (r: Option<u8>)
    ensures
        r == spec_hex_pair(a, b),
{
    match (hex_digit(a), hex_digit(b)) {
        (Some(x), Some(y)) => Some(x * 16 + y),
        _ => None,
    }
}

/// A color from a hex body of three, six or eight digits (`abc` doubles each
/// nibble); anything else is rejected.
pub open spec fn spec_hex_color(s: Seq<char>) -> Option<Color> {
    if s.len() == 6 {
        match (spec_hex_pair(s[0], s[1]), spec_hex_pair(s[2], s[3]), spec_hex_pair(s[4], s[5])) {
            (Some(r), Some(g), Some(b)) => Some(Color { r, g, b, a: 255 }),
            _ => None,
        }
    } else if s.len() == 8 {
        match (
            spec_hex_pair(s[0], s[1]),
            spec_hex_pair(s[2], s[3]),
            spec_hex_pair(s[4], s[5]),
            spec_hex_pair(s[6], s[7]),
        ) {
            (Some(r), Some(g), Some(b), Some(a)) => Some(Color { r, g, b, a }),
            _ => None,
        }
    } else if s.len() == 3 {
        match (spec_hex_pair(s[0], s[0]), spec_hex_pair(s[1], s[1]), spec_hex_pair(s[2], s[2])) {
            (Some(r), Some(g), Some(b)) => Some(Color { r, g, b, a: 255 }),
            _ => None,
        }
    } else {
        None
    }
}

/// Parses a hex color body.
pub fn parse_hex_color(s: &str) -> (r: Option<Color>)
    ensures
        r == spec_hex_color(s@),
{
    let cs = str_chars(s);
    if cs.len() == 6 {
        match (hex_pair(cs[0], cs[1]), hex_pair(cs[2], cs[3]), hex_pair(cs[4], cs[5])) {
            (Some(r), Some(g), Some(b)) => Some(Color { r, g, b, a: 255 }),
            _ => None,
        }
    } else if cs.len() == 8 {
        match (
            hex_pair(cs[0], cs[1]),
            hex_pair(cs[2], cs[3]),
            hex_pair(cs[4], cs[5]),
            hex_pair(cs[6], cs[7]),
        ) {
            (Some(r), Some(g), Some(b), Some(a)) => Some(Color { r, g, b, a }),
            _ => None,
        }
    } else if cs.len() == 3 {
        match (hex_pair(cs[0], cs[0]), hex_pair(cs[1], cs[1]), hex_pair(cs[2], cs[2])) {
            (Some(r), Some(g), Some(b)) => Some(Color { r, g, b, a: 255 }),
            _ => None,
        }
    } else {
        None
    }
}

/// A length from one token: numbers are pixels, `px` and `s` dimensions are
/// pixels and stretch, `auto` is automatic.
pub open spec fn spec_parse_units(t: Token) -> Option<Units> {
    match t {
        Token::Number(v) => Some(Units::Pixels(v)),
        Token::Percentage(p) => Some(Units::Percentage(p)),
        Token::Dimension(v, u) => if u@ == "px"@ {
            Some(Units::Pixels(v))
        } else if u@ == "s"@ {
            Some(Units::Stretch(v))
        } else {
            None
        },
        Token::Ident(name) => if name@ == "auto"@ {
            Some(Units::Auto)
        } else {
            None
        },
        _ => None,
    }
}

/// Parses a length token.
pub fn parse_units(t: &Token) -> (r: Option<Units>)
    ensures
        r == spec_parse_units(*t),
{
    match t {
        Token::Number(v) => Some(Units::Pixels(*v)),
        Token::Percentage(p) => Some(Units::Percentage(*p)),
        Token::Dimension(v, u) => {
            if str_eq(u, "px") {
                Some(Units::Pixels(*v))
            } else if str_eq(u, "s") {
                Some(Units::Stretch(*v))
            } else {
                None
            }
        },
        Token::Ident(name) => {
            if str_eq(name, "auto") {
                Some(Units::Auto)
            } else {
                None
            }
        },
        _ => None,
    }
}

/// A color from one token: a known name or a hex body.
pub open spec fn spec_parse_color(t: Token) -> Option<Color> {
    match t {
        Token::Ident(name) => spec_css_color(name@),
        Token::Hash(h) => spec_hex_color(h@),
        _ => None,
    }
}

/// Parses a color token.
pub fn parse_color(t: &Token) -> (r: Option<Color>)
    ensures
        r == spec_parse_color(*t),
{
    match t {
        Token::Ident(name) => css_color(name),
        Token::Hash(h) => parse_hex_color(h),
        _ => None,
    }
}

/// The boolean keyword table.
pub open spec fn spec_parse_bool(s: Seq<char>) -> Option<bool> {
    if s == "on"@ || s == "true"@ || s == "yes"@ {
        Some(true)
    } else if s == "off"@ || s == "false"@ || s == "no"@ {
        Some(false)
    } else {
        None
    }
}

/// Parses a boolean keyword.
pub fn parse_bool(name: &str) -> (r: Option<bool>)
    ensures
        r == spec_parse_bool(name@),
{
    if str_eq(name, "on") || str_eq(name, "true") || str_eq(name, "yes") {
        Some(true)
    } else if str_eq(name, "off") || str_eq(name, "false") || str_eq(name, "no") {
        Some(false)
    } else {
        None
    }
}

/// Font sizes: named sizes in thousandths of a pixel, or a plain value.
pub open spec fn spec_parse_font_size(t: Token) -> Option<i64> {
    match t {
        Token::Ident(name) => if name@ == "medium"@ {
            Some(14000int as i64)
        } else if name@ == "xx-small"@ {
            Some(8000int as i64)
        } else if name@ == "x-small"@ {
            Some(10000int as i64)
        } else if name@ == "small"@ {
            Some(12000int as i64)
        } else if name@ == "large"@ {
            Some(16000int as i64)
        } else if name@ == "x-large"@ {
            Some(18000int as i64)
        } else if name@ == "xx-large"@ {
            Some(20000int as i64)
        } else {
            None
        },
        Token::Number(v) => Some(v),
        Token::Percentage(p) => Some(p),
        Token::Dimension(v, _) => Some(v),
        _ => None,
    }
}

/// Parses a font size.
pub fn parse_font_size(t: &Token) -> (r: Option<i64>)
    ensures
        r == spec_parse_font_size(*t),
{
    match t {
        Token::Ident(name) => {
            if str_eq(name, "medium") {
                Some(14000)
            } else if str_eq(name, "xx-small") {
                Some(8000)
            } else if str_eq(name, "x-small") {
                Some(10000)
            } else if str_eq(name, "small") {
                Some(12000)
            } else if str_eq(name, "large") {
                Some(16000)
            } else if str_eq(name, "x-large") {
                Some(18000)
            } else if str_eq(name, "xx-large") {
                Some(20000)
            } else {
                None
            }
        },
        Token::Number(v) => Some(*v),
        Token::Percentage(p) => Some(*p),
        Token::Dimension(v, _) => Some(*v),
        _ => None,
    }
}

/// Font weights: an unsigned number in (0, 1000], `normal` (400) or `bold`
/// (700).
pub open spec fn spec_parse_font_weight(t: Token) -> Option<Weight> {
    match t {
        Token::Number(v) => if 0 < v && v <= 1000000 {
            Some(Weight((v / 1000) as u16))
        } else {
            None
        },
        Token::Ident(name) => if name@ == "normal"@ {
            Some(Weight(400))
        } else if name@ == "bold"@ {
            Some(Weight(700))
        } else {
            None
        },
        _ => None,
    }
}

/// Parses a font weight.
pub fn parse_font_weight(t: &Token) -> (r: Option<Weight>)
    ensures
        r == spec_parse_font_weight(*t),
{
    match t {
        Token::Number(v) => {
            if 0 < *v && *v <= 1000000 {
                Some(Weight((*v / 1000) as u16))
            } else {
                None
            }
        },
        Token::Ident(name) => {
            if str_eq(name, "normal") {
                Some(Weight(400))
            } else if str_eq(name, "bold") {
                Some(Weight(700))
            } else {
                None
            }
        },
        _ => None,
    }
}

/// A z-order index from a number token, truncated to whole steps.
pub open spec fn spec_parse_z_index(t: Token) -> Option<i32> {
    match t {
        Token::Number(v) => {
            let w = if v >= 0 {
                v / 1000
            } else {
                -((-v) / 1000)
            };
            if -2147483648 <= w <= 2147483647 {
                Some(w as i32)
            } else {
                None
            }
        },
        _ => None,
    }
}

/// Parses a z-order index.
pub fn parse_z_index(t: &Token) -> (r: Option<i32>)
    requires
        t.wf(),
    ensures
        r == spec_parse_z_index(*t),
{
    match t {
        Token::Number(v) => {
            let w = if *v >= 0 {
                *v / 1000
            } else {
                -((-*v) / 1000)
            };
            if -2147483648 <= w && w <= 2147483647 {
                Some(w as i32)
            } else {
                None
            }
        },
        _ => None,
    }
}

/// An opacity value in thousandths, from a number or percentage.
pub open spec fn spec_parse_opacity(t: Token) -> Option<i64> {
    match t {
        Token::Number(v) => Some(v),
        Token::Percentage(p) => if p < 0 {
            Some(0int as i64)
        } else {
            Some((p / 100) as i64)
        },
        Token::Dimension(v, _) => Some(v),
        _ => None,
    }
}

/// Parses an opacity value.
pub fn parse_opacity(t: &Token) -> (r: Option<i64>)
    ensures
        r == spec_parse_opacity(*t),
{
    match t {
        Token::Number(v) => Some(*v),
        Token::Percentage(p) => {
            if *p < 0 {
                Some(0)
            } else {
                Some(*p / 100)
            }
        },
        Token::Dimension(v, _) => Some(*v),
        _ => None,
    }
}

} // verus!

verus! {

/// The length properties, by declaration name: each maps a single parsed
/// length to its property.
pub open spec fn spec_units_ctor(name: Seq<char>) -> Option<spec_fn(Units) -> Property> {
    if name == "left"@ {
        Some(|u: Units| Property::Left(u))
    } else if name == "right"@ {
        Some(|u: Units| Property::Right(u))
    } else if name == "top"@ {
        Some(|u: Units| Property::Top(u))
    } else if name == "bottom"@ {
        Some(|u: Units| Property::Bottom(u))
    } else if name == "space"@ {
        Some(|u: Units| Property::Space(u))
    } else if name == "min-left"@ {
        Some(|u: Units| Property::MinLeft(u))
    } else if name == "max-left"@ {
        Some(|u: Units| Property::MaxLeft(u))
    } else if name == "min-right"@ {
        Some(|u: Units| Property::MinRight(u))
    } else if name == "max-right"@ {
        Some(|u: Units| Property::MaxRight(u))
    } else if name == "min-top"@ {
        Some(|u: Units| Property::MinTop(u))
    } else if name == "max-top"@ {
        Some(|u: Units| Property::MaxTop(u))
    } else if name == "min-bottom"@ {
        Some(|u: Units| Property::MinBottom(u))
    } else if name == "max-bottom"@ {
        Some(|u: Units| Property::MaxBottom(u))
    } else if name == "width"@ {
        Some(|u: Units| Property::Width(u))
    } else if name == "height"@ {
        Some(|u: Units| Property::Height(u))
    } else if name == "min-width"@ {
        Some(|u: Units| Property::MinWidth(u))
    } else if name == "min-height"@ {
        Some(|u: Units| Property::MinHeight(u))
    } else if name == "max-width"@ {
        Some(|u: Units| Property::MaxWidth(u))
    } else if name == "max-height"@ {
        Some(|u: Units| Property::MaxHeight(u))
    } else if name == "child-space"@ {
        Some(|u: Units| Property::ChildSpace(u))
    } else if name == "child-left"@ {
        Some(|u: Units| Property::ChildLeft(u))
    } else if name == "child-right"@ {
        Some(|u: Units| Property::ChildRight(u))
    } else if name == "child-top"@ {
        Some(|u: Units| Property::ChildTop(u))
    } else if name == "child-bottom"@ {
        Some(|u: Units| Property::ChildBottom(u))
    } else if name == "row-between"@ {
        Some(|u: Units| Property::RowBetween(u))
    } else if name == "col-between"@ {
        Some(|u: Units| Property::ColBetween(u))
    } else if name == "border-width"@ {
        Some(|u: Units| Property::BorderWidth(u))
    } else if name == "border-radius"@ {
        Some(|u: Units| Property::BorderRadius(u))
    } else if name == "border-top-left-radius"@ {
        Some(|u: Units| Property::BorderTopLeftRadius(u))
    } else if name == "border-top-right-radius"@ {
        Some(|u: Units| Property::BorderTopRightRadius(u))
    } else if name == "border-bottom-left-radius"@ {
        Some(|u: Units| Property::BorderBottomLeftRadius(u))
    } else if name == "border-bottom-right-radius"@ {
        Some(|u: Units| Property::BorderBottomRightRadius(u))
    } else if name == "outline-width"@ {
        Some(|u: Units| Property::OutlineWidth(u))
    } else if name == "outline-offset"@ {
        Some(|u: Units| Property::OutlineOffset(u))
    } else if name == "outer-shadow-h-offset"@ {
        Some(|u: Units| Property::OuterShadowHOffset(u))
    } else if name == "outer-shadow-v-offset"@ {
        Some(|u: Units| Property::OuterShadowVOffset(u))
    } else if name == "outer-shadow-blur"@ {
        Some(|u: Units| Property::OuterShadowBlur(u))
    } else if name == "inner-shadow-h-offset"@ {
        Some(|u: Units| Property::InnerShadowHOffset(u))
    } else if name == "inner-shadow-v-offset"@ {
        Some(|u: Units| Property::InnerShadowVOffset(u))
    } else if name == "inner-shadow-blur"@ {
        Some(|u: Units| Property::InnerShadowBlur(u))
    } else {
        None
    }
}

/// The color properties, by declaration name.
pub open spec fn spec_color_ctor(name: Seq<char>) -> Option<spec_fn(Color) -> Property> {
    if name == "background-color"@ {
        Some(|c: Color| Property::BackgroundColor(c))
    } else if name == "color"@ {
        Some(|c: Color| Property::FontColor(c))
    } else if name == "selection-color"@ {
        Some(|c: Color| Property::SelectionColor(c))
    } else if name == "caret-color"@ {
        Some(|c: Color| Property::CaretColor(c))
    } else if name == "border-color"@ {
        Some(|c: Color| Property::BorderColor(c))
    } else if name == "outline-color"@ {
        Some(|c: Color| Property::OutlineColor(c))
    } else if name == "outer-shadow-color"@ {
        Some(|c: Color| Property::OuterShadowColor(c))
    } else if name == "inner-shadow-color"@ {
        Some(|c: Color| Property::InnerShadowColor(c))
    } else {
        None
    }
}

/// The corner-shape properties, by declaration name.
pub open spec fn spec_shape_ctor(name: Seq<char>) -> Option<
    spec_fn(BorderCornerShape) -> Property,
> {
    if name == "border-corner-shape"@ {
        Some(|v: BorderCornerShape| Property::BorderCornerShape(v))
    } else if name == "border-top-left-shape"@ {
        Some(|v: BorderCornerShape| Property::BorderTopLeftShape(v))
    } else if name == "border-top-right-shape"@ {
        Some(|v: BorderCornerShape| Property::BorderTopRightShape(v))
    } else if name == "border-bottom-left-shape"@ {
        Some(|v: BorderCornerShape| Property::BorderBottomLeftShape(v))
    } else if name == "border-bottom-right-shape"@ {
        Some(|v: BorderCornerShape| Property::BorderBottomRightShape(v))
    } else {
        None
    }
}

/// What one declaration means: the dispatch over the property-name tables,
/// each value parsed by its leaf table, unknown names keeping their value as
/// raw data, and each malformed value its exact error.
pub open spec fn spec_parse_single_value(name: String, t: Token) -> Result<
    Property,
    CustomParseError,
> {
    if spec_units_ctor(name@) is Some {
        match spec_parse_units(t) {
            Some(u) => Ok((spec_units_ctor(name@)->Some_0)(u)),
            None => Err(CustomParseError::InvalidLengthUnits(name)),
        }
    } else if name@ == "position"@ || name@ == "position-type"@ {
        match t {
            Token::Ident(w) => match spec_parse_position_type(w@) {
                Some(v) => Ok(Property::PositionType(v)),
                None => Err(CustomParseError::InvalidStringName(name)),
            },
            _ => Err(CustomParseError::InvalidValue(name)),
        }
    } else if spec_color_ctor(name@) is Some {
        match spec_parse_color(t) {
            Some(c) => Ok((spec_color_ctor(name@)->Some_0)(c)),
            None => Err(CustomParseError::UnrecognisedColorName(name)),
        }
    } else if name@ == "background-image"@ {
        match t {
            Token::QuotedString(s2) => Ok(Property::BackgroundImage(s2)),
            _ => Err(CustomParseError::InvalidStringName(name)),
        }
    } else if name@ == "layout-type"@ {
        match t {
            Token::Ident(w) => match spec_parse_layout_type(w@) {
                Some(v) => Ok(Property::LayoutType(v)),
                None => Err(CustomParseError::InvalidStringName(name)),
            },
            _ => Err(CustomParseError::InvalidValue(name)),
        }
    } else if name@ == "display"@ {
        match t {
            Token::Ident(w) => match spec_parse_display(w@) {
                Some(v) => Ok(Property::Display(v)),
                None => Err(CustomParseError::InvalidStringName(name)),
            },
            _ => Err(CustomParseError::InvalidValue(name)),
        }
    } else if name@ == "visibility"@ {
        match t {
            Token::Ident(w) => match spec_parse_visibility(w@) {
                Some(v) => Ok(Property::Visibility(v)),
                None => Err(CustomParseError::InvalidStringName(name)),
            },
            _ => Err(CustomParseError::InvalidValue(name)),
        }
    } else if name@ == "overflow"@ {
        match t {
            Token::Ident(w) => match spec_parse_overflow(w@) {
                Some(v) => Ok(Property::Overflow(v)),
                None => Err(CustomParseError::InvalidStringName(name)),
            },
            _ => Err(CustomParseError::InvalidValue(name)),
        }
    } else if spec_shape_ctor(name@) is Some {
        match t {
            Token::Ident(w) => match spec_parse_border_corner_shape(w@) {
                Some(v) => Ok((spec_shape_ctor(name@)->Some_0)(v)),
                None => Err(CustomParseError::InvalidStringName(name)),
            },
            _ => Err(CustomParseError::InvalidValue(name)),
        }
    } else if name@ == "font-size"@ {
        match spec_parse_font_size(t) {
            Some(v) => Ok(Property::FontSize(v)),
            None => Err(CustomParseError::InvalidStringName(name)),
        }
    } else if name@ == "font-weight"@ {
        match spec_parse_font_weight(t) {
            Some(v) => Ok(Property::FontWeight(v)),
            None => Err(CustomParseError::InvalidValue(name)),
        }
    } else if name@ == "font-style"@ {
        match t {
            Token::Ident(w) => match spec_parse_font_style(w@) {
                Some(v) => Ok(Property::FontStyle(v)),
                None => Err(CustomParseError::InvalidStringName(name)),
            },
            _ => Err(CustomParseError::InvalidValue(name)),
        }
    } else if name@ == "text-wrap"@ {
        match t {
            Token::Ident(w) => match spec_parse_bool(w@) {
                Some(v) => Ok(Property::TextWrap(v)),
                None => Err(CustomParseError::InvalidStringName(name)),
            },
            _ => Err(CustomParseError::InvalidValue(name)),
        }
    } else if name@ == "opacity"@ {
        match spec_parse_opacity(t) {
            Some(v) => Ok(Property::Opacity(v)),
            None => Err(CustomParseError::InvalidValue(name)),
        }
    } else if name@ == "z-index"@ {
        match spec_parse_z_index(t) {
            Some(v) => Ok(Property::ZIndex(v)),
            None => Err(CustomParseError::InvalidValue(name)),
        }
    } else if name@ == "cursor"@ {
        match t {
            Token::Ident(w) => match spec_parse_cursor(w@) {
                Some(v) => Ok(Property::Cursor(v)),
                None => Err(CustomParseError::InvalidStringName(name)),
            },
            _ => Err(CustomParseError::InvalidValue(name)),
        }
    } else {
        match t {
            Token::QuotedString(s2) => Ok(Property::Unknown(name, PropType::String(s2))),
            _ => match spec_parse_units(t) {
                Some(u) => Ok(Property::Unknown(name, PropType::Units(u))),
                None => Err(CustomParseError::InvalidValue(name)),
            },
        }
    }
}

/// Parses the value of the named property from one value token.  Properties
/// whose values span several tokens are handled by the declaration parser.
pub fn parse_single_value(name: &String, t: &Token) -> (r: Result<Property, CustomParseError>)
    requires
        t.wf(),
    ensures
        r == spec_parse_single_value(*name, *t),
{
    let n: &str = name;
    if str_eq(n, "left") {
        match parse_units(t) {
            Some(u) => Ok(Property::Left(u)),
            None => Err(CustomParseError::InvalidLengthUnits(name.clone())),
        }
    } else if str_eq(n, "right") {
        match parse_units(t) {
            Some(u) => Ok(Property::Right(u)),
            None => Err(CustomParseError::InvalidLengthUnits(name.clone())),
        }
    } else if str_eq(n, "top") {
        match parse_units(t) {
            Some(u) => Ok(Property::Top(u)),
            None => Err(CustomParseError::InvalidLengthUnits(name.clone())),
        }
    } else if str_eq(n, "bottom") {
        match parse_units(t) {
            Some(u) => Ok(Property::Bottom(u)),
            None => Err(CustomParseError::InvalidLengthUnits(name.clone())),
        }
    } else if str_eq(n, "space") {
        match parse_units(t) {
            Some(u) => Ok(Property::Space(u)),
            None => Err(CustomParseError::InvalidLengthUnits(name.clone())),
        }
    } else if str_eq(n, "min-left") {
        match parse_units(t) {
            Some(u) => Ok(Property::MinLeft(u)),
            None => Err(CustomParseError::InvalidLengthUnits(name.clone())),
        }
    } else if str_eq(n, "max-left") {
        match parse_units(t) {
            Some(u) => Ok(Property::MaxLeft(u)),
            None => Err(CustomParseError::InvalidLengthUnits(name.clone())),
        }
    } else if str_eq(n, "min-right") {
        match parse_units(t) {
            Some(u) => Ok(Property::MinRight(u)),
            None => Err(CustomParseError::InvalidLengthUnits(name.clone())),
        }
    } else if str_eq(n, "max-right") {
        match parse_units(t) {
            Some(u) => Ok(Property::MaxRight(u)),
            None => Err(CustomParseError::InvalidLengthUnits(name.clone())),
        }
    } else if str_eq(n, "min-top") {
        match parse_units(t) {
            Some(u) => Ok(Property::MinTop(u)),
            None => Err(CustomParseError::InvalidLengthUnits(name.clone())),
        }
    } else if str_eq(n, "max-top") {
        match parse_units(t) {
            Some(u) => Ok(Property::MaxTop(u)),
            None => Err(CustomParseError::InvalidLengthUnits(name.clone())),
        }
    } else if str_eq(n, "min-bottom") {
        match parse_units(t) {
            Some(u) => Ok(Property::MinBottom(u)),
            None => Err(CustomParseError::InvalidLengthUnits(name.clone())),
        }
    } else if str_eq(n, "max-bottom") {
        match parse_units(t) {
            Some(u) => Ok(Property::MaxBottom(u)),
            None => Err(CustomParseError::InvalidLengthUnits(name.clone())),
        }
    } else if str_eq(n, "width") {
        match parse_units(t) {
            Some(u) => Ok(Property::Width(u)),
            None => Err(CustomParseError::InvalidLengthUnits(name.clone())),
        }
    } else if str_eq(n, "height") {
        match parse_units(t) {
            Some(u) => Ok(Property::Height(u)),
            None => Err(CustomParseError::InvalidLengthUnits(name.clone())),
        }
    } else if str_eq(n, "min-width") {
        match parse_units(t) {
            Some(u) => Ok(Property::MinWidth(u)),
            None => Err(CustomParseError::InvalidLengthUnits(name.clone())),
        }
    } else if str_eq(n, "min-height") {
        match parse_units(t) {
            Some(u) => Ok(Property::MinHeight(u)),
            None => Err(CustomParseError::InvalidLengthUnits(name.clone())),
        }
    } else if str_eq(n, "max-width") {
        match parse_units(t) {
            Some(u) => Ok(Property::MaxWidth(u)),
            None => Err(CustomParseError::InvalidLengthUnits(name.clone())),
        }
    } else if str_eq(n, "max-height") {
        match parse_units(t) {
            Some(u) => Ok(Property::MaxHeight(u)),
            None => Err(CustomParseError::InvalidLengthUnits(name.clone())),
        }
    } else if str_eq(n, "child-space") {
        match parse_units(t) {
            Some(u) => Ok(Property::ChildSpace(u)),
            None => Err(CustomParseError::InvalidLengthUnits(name.clone())),
        }
    } else if str_eq(n, "child-left") {
        match parse_units(t) {
            Some(u) => Ok(Property::ChildLeft(u)),
            None => Err(CustomParseError::InvalidLengthUnits(name.clone())),
        }
    } else if str_eq(n, "child-right") {
        match parse_units(t) {
            Some(u) => Ok(Property::ChildRight(u)),
            None => Err(CustomParseError::InvalidLengthUnits(name.clone())),
        }
    } else if str_eq(n, "child-top") {
        match parse_units(t) {
            Some(u) => Ok(Property::ChildTop(u)),
            None => Err(CustomParseError::InvalidLengthUnits(name.clone())),
        }
    } else if str_eq(n, "child-bottom") {
        match parse_units(t) {
            Some(u) => Ok(Property::ChildBottom(u)),
            None => Err(CustomParseError::InvalidLengthUnits(name.clone())),
        }
    } else if str_eq(n, "row-between") {
        match parse_units(t) {
            Some(u) => Ok(Property::RowBetween(u)),
            None => Err(CustomParseError::InvalidLengthUnits(name.clone())),
        }
    } else if str_eq(n, "col-between") {
        match parse_units(t) {
            Some(u) => Ok(Property::ColBetween(u)),
            None => Err(CustomParseError::InvalidLengthUnits(name.clone())),
        }
    } else if str_eq(n, "border-width") {
        match parse_units(t) {
            Some(u) => Ok(Property::BorderWidth(u)),
            None => Err(CustomParseError::InvalidLengthUnits(name.clone())),
        }
    } else if str_eq(n, "border-radius") {
        match parse_units(t) {
            Some(u) => Ok(Property::BorderRadius(u)),
            None => Err(CustomParseError::InvalidLengthUnits(name.clone())),
        }
    } else if str_eq(n, "border-top-left-radius") {
        match parse_units(t) {
            Some(u) => Ok(Property::BorderTopLeftRadius(u)),
            None => Err(CustomParseError::InvalidLengthUnits(name.clone())),
        }
    } else if str_eq(n, "border-top-right-radius") {
        match parse_units(t) {
            Some(u) => Ok(Property::BorderTopRightRadius(u)),
            None => Err(CustomParseError::InvalidLengthUnits(name.clone())),
        }
    } else if str_eq(n, "border-bottom-left-radius") {
        match parse_units(t) {
            Some(u) => Ok(Property::BorderBottomLeftRadius(u)),
            None => Err(CustomParseError::InvalidLengthUnits(name.clone())),
        }
    } else if str_eq(n, "border-bottom-right-radius") {
        match parse_units(t) {
            Some(u) => Ok(Property::BorderBottomRightRadius(u)),
            None => Err(CustomParseError::InvalidLengthUnits(name.clone())),
        }
    } else if str_eq(n, "outline-width") {
        match parse_units(t) {
            Some(u) => Ok(Property::OutlineWidth(u)),
            None => Err(CustomParseError::InvalidLengthUnits(name.clone())),
        }
    } else if str_eq(n, "outline-offset") {
        match parse_units(t) {
            Some(u) => Ok(Property::OutlineOffset(u)),
            None => Err(CustomParseError::InvalidLengthUnits(name.clone())),
        }
    } else if str_eq(n, "outer-shadow-h-offset") {
        match parse_units(t) {
            Some(u) => Ok(Property::OuterShadowHOffset(u)),
            None => Err(CustomParseError::InvalidLengthUnits(name.clone())),
        }
    } else if str_eq(n, "outer-shadow-v-offset") {
        match parse_units(t) {
            Some(u) => Ok(Property::OuterShadowVOffset(u)),
            None => Err(CustomParseError::InvalidLengthUnits(name.clone())),
        }
    } else if str_eq(n, "outer-shadow-blur") {
        match parse_units(t) {
            Some(u) => Ok(Property::OuterShadowBlur(u)),
            None => Err(CustomParseError::InvalidLengthUnits(name.clone())),
        }
    } else if str_eq(n, "inner-shadow-h-offset") {
        match parse_units(t) {
            Some(u) => Ok(Property::InnerShadowHOffset(u)),
            None => Err(CustomParseError::InvalidLengthUnits(name.clone())),
        }
    } else if str_eq(n, "inner-shadow-v-offset") {
        match parse_units(t) {
            Some(u) => Ok(Property::InnerShadowVOffset(u)),
            None => Err(CustomParseError::InvalidLengthUnits(name.clone())),
        }
    } else if str_eq(n, "inner-shadow-blur") {
        match parse_units(t) {
            Some(u) => Ok(Property::InnerShadowBlur(u)),
            None => Err(CustomParseError::InvalidLengthUnits(name.clone())),
        }
    } else if str_eq(n, "position") || str_eq(n, "position-type") {
        match t {
            Token::Ident(w) => match parse_position_type(w) {
                Some(v) => Ok(Property::PositionType(v)),
                None => Err(CustomParseError::InvalidStringName(name.clone())),
            },
            _ => Err(CustomParseError::InvalidValue(name.clone())),
        }
    } else if str_eq(n, "background-color") {
        match parse_color(t) {
            Some(c) => Ok(Property::BackgroundColor(c)),
            None => Err(CustomParseError::UnrecognisedColorName(name.clone())),
        }
    } else if str_eq(n, "color") {
        match parse_color(t) {
            Some(c) => Ok(Property::FontColor(c)),
            None => Err(CustomParseError::UnrecognisedColorName(name.clone())),
        }
    } else if str_eq(n, "selection-color") {
        match parse_color(t) {
            Some(c) => Ok(Property::SelectionColor(c)),
            None => Err(CustomParseError::UnrecognisedColorName(name.clone())),
        }
    } else if str_eq(n, "caret-color") {
        match parse_color(t) {
            Some(c) => Ok(Property::CaretColor(c)),
            None => Err(CustomParseError::UnrecognisedColorName(name.clone())),
        }
    } else if str_eq(n, "border-color") {
        match parse_color(t) {
            Some(c) => Ok(Property::BorderColor(c)),
            None => Err(CustomParseError::UnrecognisedColorName(name.clone())),
        }
    } else if str_eq(n, "outline-color") {
        match parse_color(t) {
            Some(c) => Ok(Property::OutlineColor(c)),
            None => Err(CustomParseError::UnrecognisedColorName(name.clone())),
        }
    } else if str_eq(n, "outer-shadow-color") {
        match parse_color(t) {
            Some(c) => Ok(Property::OuterShadowColor(c)),
            None => Err(CustomParseError::UnrecognisedColorName(name.clone())),
        }
    } else if str_eq(n, "inner-shadow-color") {
        match parse_color(t) {
            Some(c) => Ok(Property::InnerShadowColor(c)),
            None => Err(CustomParseError::UnrecognisedColorName(name.clone())),
        }
    } else if str_eq(n, "background-image") {
        match t {
            Token::QuotedString(s2) => Ok(Property::BackgroundImage(s2.clone())),
            _ => Err(CustomParseError::InvalidStringName(name.clone())),
        }
    } else if str_eq(n, "layout-type") {
        match t {
            Token::Ident(w) => match parse_layout_type(w) {
                Some(v) => Ok(Property::LayoutType(v)),
                None => Err(CustomParseError::InvalidStringName(name.clone())),
            },
            _ => Err(CustomParseError::InvalidValue(name.clone())),
        }
    } else if str_eq(n, "display") {
        match t {
            Token::Ident(w) => match parse_display(w) {
                Some(v) => Ok(Property::Display(v)),
                None => Err(CustomParseError::InvalidStringName(name.clone())),
            },
            _ => Err(CustomParseError::InvalidValue(name.clone())),
        }
    } else if str_eq(n, "visibility") {
        match t {
            Token::Ident(w) => match parse_visibility(w) {
                Some(v) => Ok(Property::Visibility(v)),
                None => Err(CustomParseError::InvalidStringName(name.clone())),
            },
            _ => Err(CustomParseError::InvalidValue(name.clone())),
        }
    } else if str_eq(n, "overflow") {
        match t {
            Token::Ident(w) => match parse_overflow(w) {
                Some(v) => Ok(Property::Overflow(v)),
                None => Err(CustomParseError::InvalidStringName(name.clone())),
            },
            _ => Err(CustomParseError::InvalidValue(name.clone())),
        }
    } else if str_eq(n, "border-corner-shape") {
        match t {
            Token::Ident(w) => match parse_border_corner_shape(w) {
                Some(v) => Ok(Property::BorderCornerShape(v)),
                None => Err(CustomParseError::InvalidStringName(name.clone())),
            },
            _ => Err(CustomParseError::InvalidValue(name.clone())),
        }
    } else if str_eq(n, "border-top-left-shape") {
        match t {
            Token::Ident(w) => match parse_border_corner_shape(w) {
                Some(v) => Ok(Property::BorderTopLeftShape(v)),
                None => Err(CustomParseError::InvalidStringName(name.clone())),
            },
            _ => Err(CustomParseError::InvalidValue(name.clone())),
        }
    } else if str_eq(n, "border-top-right-shape") {
        match t {
            Token::Ident(w) => match parse_border_corner_shape(w) {
                Some(v) => Ok(Property::BorderTopRightShape(v)),
                None => Err(CustomParseError::InvalidStringName(name.clone())),
            },
            _ => Err(CustomParseError::InvalidValue(name.clone())),
        }
    } else if str_eq(n, "border-bottom-left-shape") {
        match t {
            Token::Ident(w) => match parse_border_corner_shape(w) {
                Some(v) => Ok(Property::BorderBottomLeftShape(v)),
                None => Err(CustomParseError::InvalidStringName(name.clone())),
            },
            _ => Err(CustomParseError::InvalidValue(name.clone())),
        }
    } else if str_eq(n, "border-bottom-right-shape") {
        match t {
            Token::Ident(w) => match parse_border_corner_shape(w) {
                Some(v) => Ok(Property::BorderBottomRightShape(v)),
                None => Err(CustomParseError::InvalidStringName(name.clone())),
            },
            _ => Err(CustomParseError::InvalidValue(name.clone())),
        }
    } else if str_eq(n, "font-size") {
        match parse_font_size(t) {
            Some(v) => Ok(Property::FontSize(v)),
            None => Err(CustomParseError::InvalidStringName(name.clone())),
        }
    } else if str_eq(n, "font-weight") {
        match parse_font_weight(t) {
            Some(v) => Ok(Property::FontWeight(v)),
            None => Err(CustomParseError::InvalidValue(name.clone())),
        }
    } else if str_eq(n, "font-style") {
        match t {
            Token::Ident(w) => match parse_font_style(w) {
                Some(v) => Ok(Property::FontStyle(v)),
                None => Err(CustomParseError::InvalidStringName(name.clone())),
            },
            _ => Err(CustomParseError::InvalidValue(name.clone())),
        }
    } else if str_eq(n, "text-wrap") {
        match t {
            Token::Ident(w) => match parse_bool(w) {
                Some(v) => Ok(Property::TextWrap(v)),
                None => Err(CustomParseError::InvalidStringName(name.clone())),
            },
            _ => Err(CustomParseError::InvalidValue(name.clone())),
        }
    } else if str_eq(n, "opacity") {
        match parse_opacity(t) {
            Some(v) => Ok(Property::Opacity(v)),
            None => Err(CustomParseError::InvalidValue(name.clone())),
        }
    } else if str_eq(n, "z-index") {
        match parse_z_index(t) {
            Some(v) => Ok(Property::ZIndex(v)),
            None => Err(CustomParseError::InvalidValue(name.clone())),
        }
    } else if str_eq(n, "cursor") {
        match t {
            Token::Ident(w) => match parse_cursor(w) {
                Some(v) => Ok(Property::Cursor(v)),
                None => Err(CustomParseError::InvalidStringName(name.clone())),
            },
            _ => Err(CustomParseError::InvalidValue(name.clone())),
        }
    } else {
        // An unknown property keeps its value as raw data.
        match t {
            Token::QuotedString(s2) => Ok(Property::Unknown(name.clone(), PropType::String(s2.clone()))),
            _ => match parse_units(t) {
                Some(u) => Ok(Property::Unknown(name.clone(), PropType::Units(u))),
                None => Err(CustomParseError::InvalidValue(name.clone())),
            },
        }
    }
}

} // verus!
verus! {

/// The pseudo-class name table: each known name maps to its selector bit.
pub open spec fn spec_parse_pseudo_class(s: Seq<char>) -> Option<u32> {
    if s == "hover"@ {
        Some(PSEUDO_HOVER)
    } else if s == "over"@ {
        Some(PSEUDO_OVER)
    } else if s == "active"@ {
        Some(PSEUDO_ACTIVE)
    } else if s == "focus"@ {
        Some(PSEUDO_FOCUS)
    } else if s == "disabled"@ {
        Some(PSEUDO_DISABLED)
    } else if s == "checked"@ {
        Some(PSEUDO_CHECKED)
    } else if s == "selected"@ {
        Some(PSEUDO_SELECTED)
    } else if s == "custom"@ {
        Some(PSEUDO_CUSTOM)
    } else if s == "focus-within"@ {
        Some(PSEUDO_FOCUS_WITHIN)
    } else if s == "focus-visible"@ {
        Some(PSEUDO_FOCUS_VISIBLE)
    } else if s == "root"@ {
        Some(PSEUDO_ROOT)
    } else {
        None
    }
}

/// The pseudo-class name table.
pub fn parse_pseudo_class(name: &str) -> (r: Option<u32>)
    ensures
        r == spec_parse_pseudo_class(name@),
{
    if str_eq(name, "hover") {
        Some(PSEUDO_HOVER)
    } else if str_eq(name, "over") {
        Some(PSEUDO_OVER)
    } else if str_eq(name, "active") {
        Some(PSEUDO_ACTIVE)
    } else if str_eq(name, "focus") {
        Some(PSEUDO_FOCUS)
    } else if str_eq(name, "disabled") {
        Some(PSEUDO_DISABLED)
    } else if str_eq(name, "checked") {
        Some(PSEUDO_CHECKED)
    } else if str_eq(name, "selected") {
        Some(PSEUDO_SELECTED)
    } else if str_eq(name, "custom") {
        Some(PSEUDO_CUSTOM)
    } else if str_eq(name, "focus-within") {
        Some(PSEUDO_FOCUS_WITHIN)
    } else if str_eq(name, "focus-visible") {
        Some(PSEUDO_FOCUS_VISIBLE)
    } else if str_eq(name, "root") {
        Some(PSEUDO_ROOT)
    } else {
        None
    }
}

/// A selector's content, over plain sequences, for stating what the
/// selector parser returns.
#[verifier::ext_equal]
pub struct SelectorSpec {
    pub asterisk: bool,
    pub element: Option<Seq<char>>,
    pub id: Option<Seq<char>>,
    pub classes: Seq<Seq<char>>,
    pub pseudo_classes: u32,
    pub relation: SelectorRelation,
}

/// A parsed selector's content.
pub open spec fn sel_view(s: Selector) -> SelectorSpec {
    SelectorSpec {
        asterisk: s.asterisk,
        element: match s.element {
            Some(e) => Some(e@),
            None => None,
        },
        id: match s.id {
            Some(e) => Some(e@),
            None => None,
        },
        classes: s.classes@.map_values(|c: String| c@),
        pseudo_classes: s.pseudo_classes,
        relation: s.relation,
    }
}

/// The selector that matches everything, as content.
pub open spec fn spec_sel_default() -> SelectorSpec {
    SelectorSpec {
        asterisk: false,
        element: None,
        id: None,
        classes: Seq::empty(),
        pseudo_classes: 0,
        relation: SelectorRelation::End,
    }
}

/// What a selector-list scan returns: the selectors and the stop position,
/// or a failure — the unknown pseudo-class name, or nothing for a malformed
/// token — and where it stopped.
pub enum SelParse {
    Done(Seq<SelectorSpec>, int),
    Fail(Option<Seq<char>>, int),
}

/// The selector grammar, one token step at a time, mirroring the scan state:
/// the selector being built, the finished ones, and whether whitespace is
/// pending as an ancestor link.
pub open spec fn spec_parse_selectors_from(
    toks: Seq<Token>,
    i: int,
    cur: SelectorSpec,
    acc: Seq<SelectorSpec>,
    ws: bool,
) -> SelParse
    decreases toks.len() - i,
{
    if i < 0 || i >= toks.len() {
        SelParse::Done(acc.push(cur), if i < 0 { i } else { toks.len() as int })
    } else {
        match toks[i] {
            Token::OpenBrace => SelParse::Done(acc.push(cur), i),
            Token::Ident(name) => {
                let acc2 = if ws {
                    acc.push(SelectorSpec { relation: SelectorRelation::Ancestor, ..cur })
                } else {
                    acc
                };
                let base = if ws {
                    spec_sel_default()
                } else {
                    cur
                };
                spec_parse_selectors_from(
                    toks,
                    i + 1,
                    SelectorSpec { element: Some(name@), ..base },
                    acc2,
                    false,
                )
            },
            Token::Delim(d) => {
                if d == '>' {
                    spec_parse_selectors_from(
                        toks,
                        i + 1,
                        spec_sel_default(),
                        acc.push(SelectorSpec { relation: SelectorRelation::Parent, ..cur }),
                        false,
                    )
                } else if d == '*' {
                    let acc2 = if ws {
                        acc.push(SelectorSpec { relation: SelectorRelation::Ancestor, ..cur })
                    } else {
                        acc
                    };
                    let base = if ws {
                        spec_sel_default()
                    } else {
                        cur
                    };
                    spec_parse_selectors_from(
                        toks,
                        i + 1,
                        SelectorSpec { asterisk: true, ..base },
                        acc2,
                        false,
                    )
                } else if d == '.' {
                    let acc2 = if ws {
                        acc.push(SelectorSpec { relation: SelectorRelation::Ancestor, ..cur })
                    } else {
                        acc
                    };
                    let base = if ws {
                        spec_sel_default()
                    } else {
                        cur
                    };
                    if i + 1 < toks.len() {
                        match toks[i + 1] {
                            Token::Ident(class_name) => spec_parse_selectors_from(
                                toks,
                                i + 2,
                                SelectorSpec {
                                    classes: base.classes.push(class_name@),
                                    ..base
                                },
                                acc2,
                                false,
                            ),
                            _ => SelParse::Fail(None, i),
                        }
                    } else {
                        SelParse::Fail(None, toks.len() as int)
                    }
                } else {
                    SelParse::Fail(None, i)
                }
            },
            Token::Hash(id_name) => spec_parse_selectors_from(
                toks,
                i + 1,
                SelectorSpec { id: Some(id_name@), ..cur },
                acc,
                false,
            ),
            Token::Space => {
                let after_parent = acc.len() > 0 && acc.last().relation
                    == SelectorRelation::Parent;
                spec_parse_selectors_from(toks, i + 1, cur, acc, !after_parent)
            },
            Token::Colon => {
                if i + 1 < toks.len() {
                    match toks[i + 1] {
                        Token::Ident(pc_name) => match spec_parse_pseudo_class(pc_name@) {
                            Some(bit) => spec_parse_selectors_from(
                                toks,
                                i + 2,
                                SelectorSpec { pseudo_classes: cur.pseudo_classes | bit, ..cur },
                                acc,
                                ws,
                            ),
                            None => SelParse::Fail(Some(pc_name@), i),
                        },
                        _ => SelParse::Fail(None, i),
                    }
                } else {
                    SelParse::Fail(None, toks.len() as int)
                }
            },
            Token::Comma => spec_parse_selectors_from(
                toks,
                i + 1,
                spec_sel_default(),
                acc.push(cur),
                false,
            ),
            _ => SelParse::Fail(None, i),
        }
    }
}

/// The selector grammar from a start position, with nothing built yet.
pub open spec fn spec_parse_selectors(toks: Seq<Token>, i: int) -> SelParse {
    spec_parse_selectors_from(toks, i, spec_sel_default(), Seq::empty(), false)
}

/// Parses the selector list of one rule, up to the opening brace: elements,
/// `#id`, `.class`, `*`, `:pseudo`, whitespace for an ancestor link, `>` for
/// a direct-parent link, and commas between alternatives.  The result is
/// exactly what [`spec_parse_selectors`] gives for the tokens.
pub fn parse_selectors(toks: &Vec<Token>, pos: &mut usize) -> (r: Result<
    Vec<Selector>,
    CustomParseError,
>)
    requires
        *old(pos) <= toks@.len(),
    ensures
        *old(pos) <= *final(pos) <= toks@.len(),
        match r {
            Ok(v) => spec_parse_selectors(toks@, *old(pos) as int) == SelParse::Done(
                v@.map_values(|s: Selector| sel_view(s)),
                *final(pos) as int,
            ),
            Err(e) => {
                &&& spec_parse_selectors(toks@, *old(pos) as int) is Fail
                &&& *final(pos) == spec_parse_selectors(toks@, *old(pos) as int)->Fail_1
                &&& match spec_parse_selectors(toks@, *old(pos) as int)->Fail_0 {
                    Some(pn) => e is UnrecognisedPseudoclass
                        && e->UnrecognisedPseudoclass_0@ == pn,
                    None => e is InvalidValue && e->InvalidValue_0@ == Seq::<char>::empty(),
                }
            },
        },
{
    let n = toks.len();
    let mut i = *pos;
    let mut selectors: Vec<Selector> = Vec::new();
    let mut selector = Selector::default();
    let mut whitespace = false;
    let ghost i0 = *pos as int;
    proof {
        assert(selectors@.map_values(|s: Selector| sel_view(s)) =~= Seq::<SelectorSpec>::empty());
        assert(sel_view(selector) =~= spec_sel_default());
    }
    while i < n
        invariant
            n == toks@.len(),
            *old(pos) <= i <= n,
            i0 == *old(pos) as int,
            spec_parse_selectors(toks@, i0) == spec_parse_selectors_from(
                toks@,
                i as int,
                sel_view(selector),
                selectors@.map_values(|s: Selector| sel_view(s)),
                whitespace,
            ),
        decreases n - i,
    {
        let ghost curv = sel_view(selector);
        let ghost accv = selectors@.map_values(|s: Selector| sel_view(s));
        let ghost wsv = whitespace;
        let ghost iv = i as int;
        match &toks[i] {
            Token::OpenBrace => {
                selectors.push(selector);
                *pos = i;
                proof {
                    assert(selectors@.map_values(|s: Selector| sel_view(s)) =~= accv.push(curv));
                }
                return Ok(selectors);
            },
            Token::Ident(name) => {
                if whitespace {
                    selector.relation = SelectorRelation::Ancestor;
                    selectors.push(selector);
                    selector = Selector::default();
                }
                selector.element = Some(name.clone());
                whitespace = false;
                i += 1;
                proof {
                    if wsv {
                        assert(selectors@.map_values(|s: Selector| sel_view(s)) =~= accv.push(
                            (SelectorSpec { relation: SelectorRelation::Ancestor, ..curv }),
                        ));
                        assert(sel_view(selector) =~= (SelectorSpec {
                            element: Some(name@),
                            ..spec_sel_default()
                        }));
                    } else {
                        assert(sel_view(selector) =~= (SelectorSpec {
                            element: Some(name@),
                            ..curv
                        }));
                    }
                }
            },
            Token::Delim(d) => {
                if *d == '>' {
                    selector.relation = SelectorRelation::Parent;
                    selectors.push(selector);
                    selector = Selector::default();
                    whitespace = false;
                    i += 1;
                    proof {
                        assert(selectors@.map_values(|s: Selector| sel_view(s)) =~= accv.push(
                            (SelectorSpec { relation: SelectorRelation::Parent, ..curv }),
                        ));
                        assert(sel_view(selector) =~= spec_sel_default());
                    }
                } else if *d == '*' {
                    if whitespace {
                        selector.relation = SelectorRelation::Ancestor;
                        selectors.push(selector);
                        selector = Selector::default();
                    }
                    selector.asterisk = true;
                    whitespace = false;
                    i += 1;
                    proof {
                        if wsv {
                            assert(selectors@.map_values(|s: Selector| sel_view(s)) =~= accv.push(
                                (SelectorSpec { relation: SelectorRelation::Ancestor, ..curv }),
                            ));
                            assert(sel_view(selector) =~= (SelectorSpec {
                                asterisk: true,
                                ..spec_sel_default()
                            }));
                        } else {
                            assert(sel_view(selector) =~= (SelectorSpec {
                                asterisk: true,
                                ..curv
                            }));
                        }
                    }
                } else if *d == '.' {
                    if whitespace {
                        selector.relation = SelectorRelation::Ancestor;
                        selectors.push(selector);
                        selector = Selector::default();
                    }
                    let ghost basev = if wsv {
                        spec_sel_default()
                    } else {
                        curv
                    };
                    proof {
                        if wsv {
                            assert(selectors@.map_values(|s: Selector| sel_view(s)) =~= accv.push(
                                (SelectorSpec { relation: SelectorRelation::Ancestor, ..curv }),
                            ));
                        }
                        assert(sel_view(selector) =~= basev);
                    }
                    if i + 1 < n {
                        match &toks[i + 1] {
                            Token::Ident(class_name) => {
                                selector.classes.push(class_name.clone());
                                whitespace = false;
                                i += 2;
                                proof {
                                    assert(sel_view(selector) =~= (SelectorSpec {
                                        classes: basev.classes.push(class_name@),
                                        ..basev
                                    }));
                                }
                            },
                            _ => {
                                *pos = i;
                                return Err(CustomParseError::InvalidValue(String::new()));
                            },
                        }
                    } else {
                        *pos = n;
                        return Err(CustomParseError::InvalidValue(String::new()));
                    }
                } else {
                    *pos = i;
                    return Err(CustomParseError::InvalidValue(String::new()));
                }
            },
            Token::Hash(id_name) => {
                selector.id = Some(id_name.clone());
                whitespace = false;
                i += 1;
                proof {
                    assert(sel_view(selector) =~= (SelectorSpec { id: Some(id_name@), ..curv }));
                }
            },
            Token::Space => {
                // Whitespace around `>` does not open an ancestor link.
                let after_parent = match selectors.last() {
                    Some(s2) => match s2.relation {
                        SelectorRelation::Parent => true,
                        _ => false,
                    },
                    None => false,
                };
                whitespace = !after_parent;
                i += 1;
                proof {
                    assert(after_parent == (accv.len() > 0 && accv.last().relation
                        == SelectorRelation::Parent)) by {
                        if selectors@.len() > 0 {
                            assert(accv.last() == sel_view(selectors@.last()));
                        }
                    }
                }
            },
            Token::Colon => {
                if i + 1 < n {
                    match &toks[i + 1] {
                        Token::Ident(pc_name) => {
                            match parse_pseudo_class(pc_name) {
                                Some(bit) => {
                                    selector.pseudo_classes = selector.pseudo_classes | bit;
                                    i += 2;
                                    proof {
                                        assert(sel_view(selector) =~= (SelectorSpec {
                                            pseudo_classes: curv.pseudo_classes | bit,
                                            ..curv
                                        }));
                                    }
                                },
                                None => {
                                    *pos = i;
                                    return Err(CustomParseError::UnrecognisedPseudoclass(
                                        pc_name.clone(),
                                    ));
                                },
                            }
                        },
                        _ => {
                            *pos = i;
                            return Err(CustomParseError::InvalidValue(String::new()));
                        },
                    }
                } else {
                    *pos = n;
                    return Err(CustomParseError::InvalidValue(String::new()));
                }
            },
            Token::Comma => {
                selectors.push(selector);
                selector = Selector::default();
                whitespace = false;
                i += 1;
                proof {
                    assert(selectors@.map_values(|s: Selector| sel_view(s)) =~= accv.push(curv));
                    assert(sel_view(selector) =~= spec_sel_default());
                }
            },
            _ => {
                *pos = i;
                return Err(CustomParseError::InvalidValue(String::new()));
            },
        }
    }
    let ghost curv = sel_view(selector);
    let ghost accv = selectors@.map_values(|s: Selector| sel_view(s));
    selectors.push(selector);
    *pos = i;
    proof {
        assert(selectors@.map_values(|s: Selector| sel_view(s)) =~= accv.push(curv));
    }
    Ok(selectors)
}

/// Is this token a whitespace run?
fn tok_is_space(t: &Token) -> (r: bool)
    ensures
        r == (t is Space),
{
    match t {
        Token::Space => true,
        _ => false,
    }
}

/// Does this token end a declaration?
fn tok_ends_decl(t: &Token) -> (r: bool)
    ensures
        r == (t is Semicolon || t is CloseBrace),
{
    match t {
        Token::Semicolon => true,
        Token::CloseBrace => true,
        _ => false,
    }
}

/// Is this token a closing brace?
fn tok_is_close(t: &Token) -> (r: bool)
    ensures
        r == (t is CloseBrace),
{
    match t {
        Token::CloseBrace => true,
        _ => false,
    }
}

/// A parse error's content, over plain sequences.
pub enum ParseErrSpec {
    LengthUnits(Seq<char>),
    Value(Seq<char>),
    ColorName(Seq<char>),
    ColorHex(Seq<char>),
    StringName(Seq<char>),
    Pseudo(Seq<char>),
}

/// A reported error's content.
pub open spec fn err_view(e: CustomParseError) -> ParseErrSpec {
    match e {
        CustomParseError::InvalidLengthUnits(s) => ParseErrSpec::LengthUnits(s@),
        CustomParseError::InvalidValue(s) => ParseErrSpec::Value(s@),
        CustomParseError::UnrecognisedColorName(s) => ParseErrSpec::ColorName(s@),
        CustomParseError::InvalidColorHex(s) => ParseErrSpec::ColorHex(s@),
        CustomParseError::InvalidStringName(s) => ParseErrSpec::StringName(s@),
        CustomParseError::UnrecognisedPseudoclass(s) => ParseErrSpec::Pseudo(s@),
    }
}

/// The position after a whitespace run.
pub open spec fn spec_skip_spaces(toks: Seq<Token>, i: int) -> int
    decreases toks.len() - i,
{
    if 0 <= i < toks.len() && toks[i] is Space {
        spec_skip_spaces(toks, i + 1)
    } else {
        i
    }
}

/// The position of the next declaration end (`;` or `}`) at or after `i`,
/// or the end of the tokens.
pub open spec fn spec_skip_to_decl_end(toks: Seq<Token>, i: int) -> int
    decreases toks.len() - i,
{
    if 0 <= i < toks.len() && !(toks[i] is Semicolon || toks[i] is CloseBrace) {
        spec_skip_to_decl_end(toks, i + 1)
    } else {
        i
    }
}

/// A whitespace skip never moves backwards, nor past the end.
pub proof fn lemma_skip_spaces_bounds(toks: Seq<Token>, i: int)
    ensures
        spec_skip_spaces(toks, i) >= i,
        i <= toks.len() ==> spec_skip_spaces(toks, i) <= toks.len(),
    decreases toks.len() - i,
{
    if 0 <= i < toks.len() && toks[i] is Space {
        lemma_skip_spaces_bounds(toks, i + 1);
    }
}

/// A skip to the declaration end never moves backwards, nor past the end.
pub proof fn lemma_skip_to_decl_end_bounds(toks: Seq<Token>, i: int)
    ensures
        spec_skip_to_decl_end(toks, i) >= i,
        i <= toks.len() ==> spec_skip_to_decl_end(toks, i) <= toks.len(),
    decreases toks.len() - i,
{
    if 0 <= i < toks.len() && !(toks[i] is Semicolon || toks[i] is CloseBrace) {
        lemma_skip_to_decl_end_bounds(toks, i + 1);
    }
}

/// What a declaration-block scan returns: the parsed properties in source
/// order, the reported errors in source order (as content), and the stop
/// position.
pub enum DeclParse {
    Done(Seq<Property>, Seq<ParseErrSpec>, int),
}

/// The declaration grammar, mirroring the scan: separators skipped, the
/// closing brace consumed, one property or one error per declaration, a
/// malformed declaration skipped to its end.
pub open spec fn spec_parse_declarations_from(
    toks: Seq<Token>,
    i: int,
    props: Seq<Property>,
    errs: Seq<ParseErrSpec>,
) -> DeclParse
    decreases toks.len() - i, 1int,
{
    if i < 0 || i >= toks.len() {
        DeclParse::Done(props, errs, if i < 0 { i } else { toks.len() as int })
    } else {
        match toks[i] {
            Token::Space => spec_parse_declarations_from(toks, i + 1, props, errs),
            Token::Semicolon => spec_parse_declarations_from(toks, i + 1, props, errs),
            Token::CloseBrace => DeclParse::Done(props, errs, i + 1),
            Token::Ident(w) => spec_parse_declaration(toks, i, w, props, errs),
            _ => {
                let k = spec_skip_to_decl_end(toks, i);
                proof {
                    lemma_skip_to_decl_end_bounds(toks, i + 1);
                }
                spec_parse_declarations_from(
                    toks,
                    if k < toks.len() {
                        k + 1
                    } else {
                        k
                    },
                    props,
                    errs.push(ParseErrSpec::Value(Seq::empty())),
                )
            },
        }
    }
}

/// One named declaration at `i`: the colon found (through whitespace), the
/// value token parsed, and the scan resumed after the declaration.
pub open spec fn spec_parse_declaration(
    toks: Seq<Token>,
    i: int,
    w: String,
    props: Seq<Property>,
    errs: Seq<ParseErrSpec>,
) -> DeclParse
    decreases toks.len() - i, 0int,
    when i < toks.len()
{
    let j = spec_skip_spaces(toks, i + 1);
    if !(j < toks.len() && toks[j] is Colon) {
        let k = spec_skip_to_decl_end(toks, j);
        proof {
            lemma_skip_spaces_bounds(toks, i + 1);
            lemma_skip_to_decl_end_bounds(toks, j);
        }
        spec_parse_declarations_from(
            toks,
            if k < toks.len() {
                k + 1
            } else {
                k
            },
            props,
            errs.push(ParseErrSpec::Value(w@)),
        )
    } else {
        let v = spec_skip_spaces(toks, j + 1);
        if v >= toks.len() {
            DeclParse::Done(props, errs.push(ParseErrSpec::Value(w@)), toks.len() as int)
        } else {
            proof {
                lemma_skip_spaces_bounds(toks, i + 1);
                lemma_skip_spaces_bounds(toks, j + 1);
                lemma_skip_to_decl_end_bounds(toks, v + 1);
            }
            match spec_parse_single_value(w, toks[v]) {
                Ok(p) => spec_parse_declarations_from(
                    toks,
                    spec_skip_to_decl_end(toks, v + 1),
                    props.push(p),
                    errs,
                ),
                Err(e) => spec_parse_declarations_from(
                    toks,
                    spec_skip_to_decl_end(toks, v + 1),
                    props,
                    errs.push(err_view(e)),
                ),
            }
        }
    }
}

/// The declaration grammar from a start position, with nothing parsed yet.
pub open spec fn spec_parse_declarations(toks: Seq<Token>, i: int) -> DeclParse {
    spec_parse_declarations_from(toks, i, Seq::empty(), Seq::empty())
}

/// Parses the declarations of one block, after the opening brace, consuming
/// the closing brace.  A malformed declaration is reported and skipped; the
/// rest of the block still parses.  The properties, the appended errors and
/// the final position are exactly what [`spec_parse_declarations`] gives.
pub fn parse_declarations(toks: &Vec<Token>, pos: &mut usize, errors: &mut Vec<CustomParseError>)
    -> (props: Vec<Property>)
    requires
        *old(pos) <= toks@.len(),
        forall|k: int| 0 <= k < toks@.len() ==> (#[trigger] toks@[k]).wf(),
    ensures
        *old(pos) <= *final(pos) <= toks@.len(),
        spec_parse_declarations(toks@, *old(pos) as int) == DeclParse::Done(
            props@,
            final(errors)@.map_values(|e: CustomParseError| err_view(e)).skip(
                old(errors)@.len() as int,
            ),
            *final(pos) as int,
        ),
        final(errors)@.len() >= old(errors)@.len(),
        final(errors)@.take(old(errors)@.len() as int) == old(errors)@,
{
    let n = toks.len();
    let mut i = *pos;
    let mut props: Vec<Property> = Vec::new();
    let ghost i0 = *pos as int;
    let ghost e0 = old(errors)@.len() as int;
    proof {
        assert(props@ =~= Seq::<Property>::empty());
        assert(errors@.map_values(|e: CustomParseError| err_view(e)).skip(e0)
            =~= Seq::<ParseErrSpec>::empty());
        assert(errors@.take(e0) =~= old(errors)@);
    }
    while i < n
        invariant
            n == toks@.len(),
            *old(pos) <= i <= n,
            i0 == *old(pos) as int,
            e0 == old(errors)@.len() as int,
            forall|k: int| 0 <= k < toks@.len() ==> (#[trigger] toks@[k]).wf(),
            errors@.len() >= e0,
            errors@.take(e0) == old(errors)@,
            spec_parse_declarations(toks@, i0) == spec_parse_declarations_from(
                toks@,
                i as int,
                props@,
                errors@.map_values(|e: CustomParseError| err_view(e)).skip(e0),
            ),
        decreases n - i,
    {
        let ghost errsv = errors@.map_values(|e: CustomParseError| err_view(e)).skip(e0);
        let ghost propsv = props@;
        // Skip separators.
        match &toks[i] {
            Token::Space => {
                i += 1;
                continue ;
            },
            Token::Semicolon => {
                i += 1;
                continue ;
            },
            Token::CloseBrace => {
                proof {
                    assert(spec_parse_declarations_from(toks@, i as int, props@, errsv)
                        == DeclParse::Done(props@, errsv, i + 1));
                }
                i += 1;
                *pos = i;
                return props;
            },
            _ => {},
        }
        // A declaration: name, colon, value tokens up to the semicolon.
        let name: Option<String> = match &toks[i] {
            Token::Ident(w) => Some(w.clone()),
            _ => None,
        };
        let ghost idecl = i as int;
        match name {
            Some(name) => {
                let ghost namev = name@;
                i += 1;
                let ghost imark1 = i as int;
                while i < n && tok_is_space(&toks[i])
                    invariant
                        n == toks@.len(),
                        imark1 <= i as int <= n,
                        spec_skip_spaces(toks@, imark1) == spec_skip_spaces(toks@, i as int),
                    decreases n - i,
                {
                    i += 1;
                }
                proof {
                    assert(spec_skip_spaces(toks@, imark1) == i as int);
                }
                let has_colon = i < n && (match &toks[i] {
                    Token::Colon => true,
                    _ => false,
                });
                if !has_colon {
                    errors.push(CustomParseError::InvalidValue(name));
                    proof {
                        assert(errors@.take(e0) =~= old(errors)@);
                        assert(errors@.map_values(|e: CustomParseError| err_view(e)).skip(e0)
                            =~= errsv.push(ParseErrSpec::Value(namev)));
                    }
                    let ghost imark2 = i as int;
                    while i < n && !tok_ends_decl(&toks[i])
                        invariant
                            n == toks@.len(),
                            imark2 <= i as int <= n,
                            spec_skip_to_decl_end(toks@, imark2) == spec_skip_to_decl_end(
                                toks@,
                                i as int,
                            ),
                        decreases n - i,
                    {
                        i += 1;
                    }
                    proof {
                        assert(spec_skip_to_decl_end(toks@, imark2) == i as int);
                    }
                    if i < n {
                        i += 1;
                    }
                    proof {
                        assert(toks@[idecl] is Ident);
                        let w0 = toks@[idecl]->Ident_0;
                        assert(w0@ == namev);
                        assert(spec_parse_declarations_from(toks@, idecl, props@, errsv)
                            == spec_parse_declaration(toks@, idecl, w0, props@, errsv));
                        assert(spec_skip_spaces(toks@, idecl + 1) == imark2);
                        assert(spec_parse_declaration(toks@, idecl, w0, props@, errsv)
                            == spec_parse_declarations_from(
                            toks@,
                            i as int,
                            props@,
                            errsv.push(ParseErrSpec::Value(w0@)),
                        ));
                    }
                    continue ;
                }
                i += 1;
                let ghost imark3 = i as int;
                while i < n && tok_is_space(&toks[i])
                    invariant
                        n == toks@.len(),
                        imark3 <= i as int <= n,
                        spec_skip_spaces(toks@, imark3) == spec_skip_spaces(toks@, i as int),
                    decreases n - i,
                {
                    i += 1;
                }
                proof {
                    assert(spec_skip_spaces(toks@, imark3) == i as int);
                }
                if i >= n {
                    errors.push(CustomParseError::InvalidValue(name));
                    *pos = i;
                    proof {
                        assert(errors@.take(e0) =~= old(errors)@);
                        assert(errors@.map_values(|e: CustomParseError| err_view(e)).skip(e0)
                            =~= errsv.push(ParseErrSpec::Value(namev)));
                        let w0 = toks@[idecl]->Ident_0;
                        assert(spec_parse_declarations_from(toks@, idecl, props@, errsv)
                            == spec_parse_declaration(toks@, idecl, w0, props@, errsv));
                        assert(spec_parse_declaration(toks@, idecl, w0, props@, errsv)
                            == DeclParse::Done(
                            props@,
                            errsv.push(ParseErrSpec::Value(w0@)),
                            n as int,
                        ));
                    }
                    return props;
                }
                let value_token = &toks[i];
                let ghost vmark = i as int;
                match parse_single_value(&name, value_token) {
                    Ok(prop) => {
                        props.push(prop);
                        i += 1;
                    },
                    Err(e) => {
                        errors.push(e);
                        i += 1;
                        proof {
                            assert(errors@.take(e0) =~= old(errors)@);
                            assert(errors@.map_values(|e2: CustomParseError| err_view(e2)).skip(
                                e0,
                            ) =~= errsv.push(err_view(errors@.last())));
                        }
                    },
                }
                // Skip anything else up to the declaration end.
                let ghost imark4 = i as int;
                while i < n && !tok_ends_decl(&toks[i])
                    invariant
                        n == toks@.len(),
                        imark4 <= i as int <= n,
                        spec_skip_to_decl_end(toks@, imark4) == spec_skip_to_decl_end(
                            toks@,
                            i as int,
                        ),
                    decreases n - i,
                {
                    i += 1;
                }
                proof {
                    assert(spec_skip_to_decl_end(toks@, imark4) == i as int);
                    let w0 = toks@[idecl]->Ident_0;
                    assert(spec_parse_declarations_from(toks@, idecl, propsv, errsv)
                        == spec_parse_declaration(toks@, idecl, w0, propsv, errsv));
                    assert(spec_parse_declaration(toks@, idecl, w0, propsv, errsv)
                        == spec_parse_declarations_from(
                        toks@,
                        i as int,
                        props@,
                        errors@.map_values(|e: CustomParseError| err_view(e)).skip(e0),
                    ));
                }
            },
            None => {
                errors.push(CustomParseError::InvalidValue(String::new()));
                proof {
                    assert(errors@.take(e0) =~= old(errors)@);
                    assert(errors@.map_values(|e: CustomParseError| err_view(e)).skip(e0)
                        =~= errsv.push(ParseErrSpec::Value(Seq::<char>::empty())));
                }
                let ghost istart = i as int;
                while i < n && !tok_ends_decl(&toks[i])
                    invariant
                        n == toks@.len(),
                        istart <= i as int <= n,
                        spec_skip_to_decl_end(toks@, istart) == spec_skip_to_decl_end(
                            toks@,
                            i as int,
                        ),
                    decreases n - i,
                {
                    i += 1;
                }
                proof {
                    assert(spec_skip_to_decl_end(toks@, istart) == i as int);
                }
                if i < n {
                    i += 1;
                }
                proof {
                    assert(spec_parse_declarations_from(toks@, idecl, props@, errsv)
                        == spec_parse_declarations_from(
                        toks@,
                        i as int,
                        props@,
                        errsv.push(ParseErrSpec::Value(Seq::<char>::empty())),
                    ));
                }
            },
        }
    }
    *pos = i;
    props
}

/// A parsed rule's content, over plain sequences.
#[verifier::ext_equal]
pub struct RuleSpec {
    pub id: crate::style_types::Rule,
    pub selectors: Seq<SelectorSpec>,
    pub properties: Seq<Property>,
}

/// A parsed rule's content.
pub open spec fn rule_view(r: crate::style_types::StyleRule) -> RuleSpec {
    RuleSpec {
        id: r.id,
        selectors: r.selectors@.map_values(|s: Selector| sel_view(s)),
        properties: r.properties@,
    }
}

/// The position of the next closing brace at or after `i`, or the end.
pub open spec fn spec_skip_to_close(toks: Seq<Token>, i: int) -> int
    decreases toks.len() - i,
{
    if 0 <= i < toks.len() && !(toks[i] is CloseBrace) {
        spec_skip_to_close(toks, i + 1)
    } else {
        i
    }
}

/// A skip to the closing brace never moves backwards, nor past the end.
pub proof fn lemma_skip_to_close_bounds(toks: Seq<Token>, i: int)
    ensures
        spec_skip_to_close(toks, i) >= i,
        i <= toks.len() ==> spec_skip_to_close(toks, i) <= toks.len(),
    decreases toks.len() - i,
{
    if 0 <= i < toks.len() && !(toks[i] is CloseBrace) {
        lemma_skip_to_close_bounds(toks, i + 1);
    }
}

/// A selector scan stops between its start and the end of the tokens.
pub proof fn lemma_parse_selectors_pos(
    toks: Seq<Token>,
    i: int,
    cur: SelectorSpec,
    acc: Seq<SelectorSpec>,
    ws: bool,
)
    requires
        0 <= i <= toks.len(),
    ensures
        match spec_parse_selectors_from(toks, i, cur, acc, ws) {
            SelParse::Done(_, p) => i <= p <= toks.len(),
            SelParse::Fail(_, p) => i <= p <= toks.len(),
        },
    decreases toks.len() - i,
{
    if i < toks.len() {
        match toks[i] {
            Token::OpenBrace => {},
            Token::Ident(name) => {
                let acc2 = if ws {
                    acc.push(SelectorSpec { relation: SelectorRelation::Ancestor, ..cur })
                } else {
                    acc
                };
                let base = if ws {
                    spec_sel_default()
                } else {
                    cur
                };
                lemma_parse_selectors_pos(
                    toks,
                    i + 1,
                    SelectorSpec { element: Some(name@), ..base },
                    acc2,
                    false,
                );
            },
            Token::Delim(d) => {
                if d == '>' {
                    lemma_parse_selectors_pos(
                        toks,
                        i + 1,
                        spec_sel_default(),
                        acc.push(SelectorSpec { relation: SelectorRelation::Parent, ..cur }),
                        false,
                    );
                } else if d == '*' {
                    let acc2 = if ws {
                        acc.push(SelectorSpec { relation: SelectorRelation::Ancestor, ..cur })
                    } else {
                        acc
                    };
                    let base = if ws {
                        spec_sel_default()
                    } else {
                        cur
                    };
                    lemma_parse_selectors_pos(
                        toks,
                        i + 1,
                        SelectorSpec { asterisk: true, ..base },
                        acc2,
                        false,
                    );
                } else if d == '.' {
                    let acc2 = if ws {
                        acc.push(SelectorSpec { relation: SelectorRelation::Ancestor, ..cur })
                    } else {
                        acc
                    };
                    let base = if ws {
                        spec_sel_default()
                    } else {
                        cur
                    };
                    if i + 1 < toks.len() {
                        match toks[i + 1] {
                            Token::Ident(class_name) => {
                                lemma_parse_selectors_pos(
                                    toks,
                                    i + 2,
                                    SelectorSpec {
                                        classes: base.classes.push(class_name@),
                                        ..base
                                    },
                                    acc2,
                                    false,
                                );
                            },
                            _ => {},
                        }
                    }
                }
            },
            Token::Hash(id_name) => {
                lemma_parse_selectors_pos(
                    toks,
                    i + 1,
                    SelectorSpec { id: Some(id_name@), ..cur },
                    acc,
                    false,
                );
            },
            Token::Space => {
                let after_parent = acc.len() > 0 && acc.last().relation
                    == SelectorRelation::Parent;
                lemma_parse_selectors_pos(toks, i + 1, cur, acc, !after_parent);
            },
            Token::Colon => {
                if i + 1 < toks.len() {
                    match toks[i + 1] {
                        Token::Ident(pc_name) => {
                            match spec_parse_pseudo_class(pc_name@) {
                                Some(bit) => {
                                    lemma_parse_selectors_pos(
                                        toks,
                                        i + 2,
                                        SelectorSpec {
                                            pseudo_classes: cur.pseudo_classes | bit,
                                            ..cur
                                        },
                                        acc,
                                        ws,
                                    );
                                },
                                None => {},
                            }
                        },
                        _ => {},
                    }
                }
            },
            Token::Comma => {
                lemma_parse_selectors_pos(toks, i + 1, spec_sel_default(), acc.push(cur), false);
            },
            _ => {},
        }
    }
}

/// A declaration scan stops between its start and the end of the tokens.
pub proof fn lemma_parse_declarations_pos(
    toks: Seq<Token>,
    i: int,
    props: Seq<Property>,
    errs: Seq<ParseErrSpec>,
)
    requires
        0 <= i <= toks.len(),
    ensures
        match spec_parse_declarations_from(toks, i, props, errs) {
            DeclParse::Done(_, _, p) => i <= p <= toks.len(),
        },
    decreases toks.len() - i, 1int,
{
    if i < toks.len() {
        match toks[i] {
            Token::Space => lemma_parse_declarations_pos(toks, i + 1, props, errs),
            Token::Semicolon => lemma_parse_declarations_pos(toks, i + 1, props, errs),
            Token::CloseBrace => {},
            Token::Ident(w) => lemma_parse_declaration_pos(toks, i, w, props, errs),
            _ => {
                lemma_skip_to_decl_end_bounds(toks, i + 1);
                let k = spec_skip_to_decl_end(toks, i);
                lemma_parse_declarations_pos(
                    toks,
                    if k < toks.len() {
                        k + 1
                    } else {
                        k
                    },
                    props,
                    errs.push(ParseErrSpec::Value(Seq::empty())),
                );
            },
        }
    }
}

/// One named declaration's scan stops between its start and the end.
pub proof fn lemma_parse_declaration_pos(
    toks: Seq<Token>,
    i: int,
    w: String,
    props: Seq<Property>,
    errs: Seq<ParseErrSpec>,
)
    requires
        0 <= i < toks.len(),
    ensures
        match spec_parse_declaration(toks, i, w, props, errs) {
            DeclParse::Done(_, _, p) => i <= p <= toks.len(),
        },
    decreases toks.len() - i, 0int,
{
    lemma_skip_spaces_bounds(toks, i + 1);
    let j = spec_skip_spaces(toks, i + 1);
    if !(j < toks.len() && toks[j] is Colon) {
        lemma_skip_to_decl_end_bounds(toks, j);
        let k = spec_skip_to_decl_end(toks, j);
        lemma_parse_declarations_pos(
            toks,
            if k < toks.len() {
                k + 1
            } else {
                k
            },
            props,
            errs.push(ParseErrSpec::Value(w@)),
        );
    } else {
        lemma_skip_spaces_bounds(toks, j + 1);
        let v = spec_skip_spaces(toks, j + 1);
        if v < toks.len() {
            lemma_skip_to_decl_end_bounds(toks, v + 1);
            match spec_parse_single_value(w, toks[v]) {
                Ok(p) => lemma_parse_declarations_pos(
                    toks,
                    spec_skip_to_decl_end(toks, v + 1),
                    props.push(p),
                    errs,
                ),
                Err(e) => lemma_parse_declarations_pos(
                    toks,
                    spec_skip_to_decl_end(toks, v + 1),
                    props,
                    errs.push(err_view(e)),
                ),
            }
        }
    }
}

/// The stylesheet grammar over tokens: rules in source order, a bad
/// selector list skipping its block, a bad declaration only itself; rule
/// ids continue from `first`, capped at the id budget.
pub open spec fn spec_parse_rules_from(
    toks: Seq<Token>,
    i: int,
    first: int,
    rules: Seq<RuleSpec>,
    errs: Seq<ParseErrSpec>,
) -> (Seq<RuleSpec>, Seq<ParseErrSpec>)
    decreases toks.len() - i,
    when 0 <= i
{
    if i >= toks.len() || rules.len() >= 1000000000 {
        (rules, errs)
    } else {
        match toks[i] {
            Token::Space => spec_parse_rules_from(toks, i + 1, first, rules, errs),
            Token::Semicolon => spec_parse_rules_from(toks, i + 1, first, rules, errs),
            _ => {
                match spec_parse_selectors(toks, i) {
                    SelParse::Done(sels, p) => {
                        proof {
                            lemma_parse_selectors_pos(
                                toks,
                                i,
                                spec_sel_default(),
                                Seq::empty(),
                                false,
                            );
                        }
                        if p < toks.len() && toks[p] is OpenBrace {
                            match spec_parse_declarations(toks, p + 1) {
                                DeclParse::Done(props, derrs, q) => {
                                    proof {
                                        lemma_parse_declarations_pos(
                                            toks,
                                            p + 1,
                                            Seq::empty(),
                                            Seq::empty(),
                                        );
                                    }
                                    let rule = RuleSpec {
                                        id: crate::style_types::Rule(
                                            (first + rules.len()) as usize,
                                        ),
                                        selectors: sels,
                                        properties: props,
                                    };
                                    spec_parse_rules_from(
                                        toks,
                                        if q > i {
                                            q
                                        } else {
                                            i + 1
                                        },
                                        first,
                                        rules.push(rule),
                                        errs + derrs,
                                    )
                                },
                            }
                        } else {
                            spec_parse_rules_from(
                                toks,
                                if p > i {
                                    p
                                } else {
                                    i + 1
                                },
                                first,
                                rules,
                                errs.push(ParseErrSpec::Value(Seq::empty())),
                            )
                        }
                    },
                    SelParse::Fail(fv, p) => {
                        proof {
                            lemma_parse_selectors_pos(
                                toks,
                                i,
                                spec_sel_default(),
                                Seq::empty(),
                                false,
                            );
                            lemma_skip_to_close_bounds(toks, p);
                        }
                        let j = spec_skip_to_close(toks, p);
                        spec_parse_rules_from(
                            toks,
                            if j < toks.len() {
                                j + 1
                            } else {
                                toks.len() as int
                            },
                            first,
                            rules,
                            errs.push(
                                match fv {
                                    Some(pn) => ParseErrSpec::Pseudo(pn),
                                    None => ParseErrSpec::Value(Seq::empty()),
                                },
                            ),
                        )
                    },
                }
            },
        }
    }
}

/// The stylesheet grammar over tokens, from the start, with nothing parsed.
pub open spec fn spec_parse_rules(toks: Seq<Token>, first: int) -> (
    Seq<RuleSpec>,
    Seq<ParseErrSpec>,
) {
    spec_parse_rules_from(toks, 0, first, Seq::empty(), Seq::empty())
}

/// Parses tokenized stylesheet text into rules, collecting the errors of
/// malformed parts.  The rules, the appended errors and their order are
/// exactly what [`spec_parse_rules`] gives for the tokens.
pub fn parse_rules_tokens(
    toks: &Vec<Token>,
    first_rule_id: usize,
    errors: &mut Vec<CustomParseError>,
) -> (rules: Vec<crate::style_types::StyleRule>)
    requires
        first_rule_id + 1000000000 <= usize::MAX,
        forall|k: int| 0 <= k < toks@.len() ==> (#[trigger] toks@[k]).wf(),
    ensures
        rules@.len() <= 1000000000,
        forall|k: int|
            0 <= k < rules@.len() ==> (#[trigger] rules@[k]).id == crate::style_types::Rule(
                (first_rule_id + k) as usize,
            ),
        spec_parse_rules(toks@, first_rule_id as int) == (
            rules@.map_values(|r: crate::style_types::StyleRule| rule_view(r)),
            final(errors)@.map_values(|e: CustomParseError| err_view(e)).skip(
                old(errors)@.len() as int,
            ),
        ),
        final(errors)@.len() >= old(errors)@.len(),
        final(errors)@.take(old(errors)@.len() as int) == old(errors)@,
{
    let n = toks.len();
    let mut rules: Vec<crate::style_types::StyleRule> = Vec::new();
    let mut i: usize = 0;
    let ghost e0 = old(errors)@.len() as int;
    proof {
        assert(rules@.map_values(|r: crate::style_types::StyleRule| rule_view(r))
            =~= Seq::<RuleSpec>::empty());
        assert(errors@.map_values(|e: CustomParseError| err_view(e)).skip(e0)
            =~= Seq::<ParseErrSpec>::empty());
        assert(errors@.take(e0) =~= old(errors)@);
    }
    while i < n && rules.len() < 1000000000
        invariant
            n == toks@.len(),
            i <= n,
            first_rule_id + 1000000000 <= usize::MAX,
            e0 == old(errors)@.len() as int,
            rules@.len() <= 1000000000,
            forall|k: int| 0 <= k < toks@.len() ==> (#[trigger] toks@[k]).wf(),
            forall|k: int|
                0 <= k < rules@.len() ==> (#[trigger] rules@[k]).id == crate::style_types::Rule(
                    (first_rule_id + k) as usize,
                ),
            errors@.len() >= e0,
            errors@.take(e0) == old(errors)@,
            spec_parse_rules(toks@, first_rule_id as int) == spec_parse_rules_from(
                toks@,
                i as int,
                first_rule_id as int,
                rules@.map_values(|r: crate::style_types::StyleRule| rule_view(r)),
                errors@.map_values(|e: CustomParseError| err_view(e)).skip(e0),
            ),
        decreases n - i,
    {
        let ghost rulesv = rules@.map_values(|r: crate::style_types::StyleRule| rule_view(r));
        let ghost errsv = errors@.map_values(|e: CustomParseError| err_view(e)).skip(e0);
        let ghost istep = i as int;
        // Skip leading separators.
        match &toks[i] {
            Token::Space => {
                i += 1;
                continue ;
            },
            Token::Semicolon => {
                i += 1;
                continue ;
            },
            _ => {},
        }
        let mut pos = i;
        match parse_selectors(&toks, &mut pos) {
            Ok(selectors) => {
                let ghost selsv = selectors@.map_values(|s: Selector| sel_view(s));
                let at_block = pos < n && (match &toks[pos] {
                    Token::OpenBrace => true,
                    _ => false,
                });
                if at_block {
                    let ghost p = pos as int;
                    pos += 1;
                    let ghost epre = errors@.len() as int;
                    let props = parse_declarations(&toks, &mut pos, errors);
                    let id = crate::style_types::Rule(first_rule_id + rules.len());
                    rules.push(crate::style_types::StyleRule { id, selectors, properties: props });
                    proof {
                        assert forall|k: int|
                            0 <= k < rules@.len() implies (#[trigger] rules@[k]).id
                            == crate::style_types::Rule((first_rule_id + k) as usize) by {
                            if k < rules@.len() - 1 {
                            }
                        }
                        assert(errors@.take(e0) =~= old(errors)@);
                        let derrs = errors@.map_values(|e: CustomParseError| err_view(e)).skip(
                            epre,
                        );
                        assert(errors@.map_values(|e: CustomParseError| err_view(e)).skip(e0)
                            =~= errsv + derrs);
                        assert(rules@.map_values(
                            |r: crate::style_types::StyleRule| rule_view(r),
                        ) =~= rulesv.push(
                            (RuleSpec {
                                id: crate::style_types::Rule(
                                    (first_rule_id + rulesv.len()) as usize,
                                ),
                                selectors: selsv,
                                properties: props@,
                            }),
                        ));
                    }
                    i = if pos > i {
                        pos
                    } else {
                        i + 1
                    };
                } else {
                    errors.push(CustomParseError::InvalidValue(String::new()));
                    proof {
                        assert(errors@.take(e0) =~= old(errors)@);
                        assert(errors@.map_values(|e: CustomParseError| err_view(e)).skip(e0)
                            =~= errsv.push(ParseErrSpec::Value(Seq::<char>::empty())));
                    }
                    i = if pos > i {
                        pos
                    } else {
                        i + 1
                    };
                }
            },
            Err(e) => {
                let ghost ev = err_view(e);
                errors.push(e);
                proof {
                    assert(errors@.take(e0) =~= old(errors)@);
                    assert(errors@.map_values(|e2: CustomParseError| err_view(e2)).skip(e0)
                        =~= errsv.push(ev));
                }
                // Skip to the end of this block.
                let mut j = pos;
                let ghost jmark = j as int;
                while j < n && !tok_is_close(&toks[j])
                    invariant
                        n == toks@.len(),
                        jmark <= j as int <= n,
                        spec_skip_to_close(toks@, jmark) == spec_skip_to_close(toks@, j as int),
                    decreases n - j,
                {
                    j += 1;
                }
                proof {
                    assert(spec_skip_to_close(toks@, jmark) == j as int);
                }
                i = if j < n {
                    j + 1
                } else {
                    n
                };
            },
        }
    }
    rules
}

/// What a transition scan gives: the eased property's name, the duration
/// and delay, and the position after the consumed tokens; or nothing, for a
/// value that does not fit the grammar.
pub enum TransParse {
    Got(Seq<char>, i64, i64, int),
    Bad,
}

/// The `transition` value grammar over tokens: a property name, a duration
/// and an optional delay (plain numbers, in thousandths of a second),
/// whitespace between the parts skipped; a missing delay is zero.
pub open spec fn spec_parse_transition(toks: Seq<Token>, i: int) -> TransParse {
    let a = spec_skip_spaces(toks, i);
    if a < toks.len() && toks[a] is Ident {
        let b = spec_skip_spaces(toks, a + 1);
        if b < toks.len() && toks[b] is Number {
            let c = spec_skip_spaces(toks, b + 1);
            if c < toks.len() && toks[c] is Number {
                TransParse::Got(toks[a]->Ident_0@, toks[b]->Number_0, toks[c]->Number_0, c + 1)
            } else {
                TransParse::Got(toks[a]->Ident_0@, toks[b]->Number_0, 0, b + 1)
            }
        } else {
            TransParse::Bad
        }
    } else {
        TransParse::Bad
    }
}

/// Parses a `transition` value from `pos`: the property to ease, its
/// duration, and an optional delay, consuming the tokens it reads.  A value
/// that does not fit the grammar is rejected with the scan left where it
/// started.
pub fn parse_transition(toks: &Vec<Token>, pos: &mut usize) -> (r: Result<
    Transition,
    CustomParseError,
>)
    requires
        *old(pos) <= toks@.len(),
    ensures
        *old(pos) <= *final(pos) <= toks@.len(),
        match r {
            Ok(t) => spec_parse_transition(toks@, *old(pos) as int) == TransParse::Got(
                t.property@,
                t.duration,
                t.delay,
                *final(pos) as int,
            ),
            Err(e) => {
                &&& spec_parse_transition(toks@, *old(pos) as int) is Bad
                &&& *final(pos) == *old(pos)
                &&& e is InvalidValue
                &&& e->InvalidValue_0@ == "transition"@
            },
        },
{
    let n = toks.len();
    let mut i = *pos;
    let ghost a0 = *pos as int;
    while i < n && tok_is_space(&toks[i])
        invariant
            n == toks@.len(),
            a0 <= i as int <= n,
            spec_skip_spaces(toks@, a0) == spec_skip_spaces(toks@, i as int),
        decreases n - i,
    {
        i += 1;
    }
    proof {
        assert(spec_skip_spaces(toks@, a0) == i as int);
    }
    if i >= n {
        return Err(CustomParseError::InvalidValue("transition".to_owned()));
    }
    match &toks[i] {
        Token::Ident(prop) => {
            let property = prop.clone();
            let mut j = i + 1;
            let ghost b0 = j as int;
            while j < n && tok_is_space(&toks[j])
                invariant
                    n == toks@.len(),
                    b0 <= j as int <= n,
                    spec_skip_spaces(toks@, b0) == spec_skip_spaces(toks@, j as int),
                decreases n - j,
            {
                j += 1;
            }
            proof {
                assert(spec_skip_spaces(toks@, b0) == j as int);
            }
            if j >= n {
                return Err(CustomParseError::InvalidValue("transition".to_owned()));
            }
            match &toks[j] {
                Token::Number(dur) => {
                    let duration = *dur;
                    let mut k2 = j + 1;
                    let ghost c0 = k2 as int;
                    while k2 < n && tok_is_space(&toks[k2])
                        invariant
                            n == toks@.len(),
                            c0 <= k2 as int <= n,
                            spec_skip_spaces(toks@, c0) == spec_skip_spaces(toks@, k2 as int),
                        decreases n - k2,
                    {
                        k2 += 1;
                    }
                    proof {
                        assert(spec_skip_spaces(toks@, c0) == k2 as int);
                    }
                    if k2 < n {
                        match &toks[k2] {
                            Token::Number(d) => {
                                let delay = *d;
                                *pos = k2 + 1;
                                return Ok(Transition { property, duration, delay });
                            },
                            _ => {},
                        }
                    }
                    *pos = j + 1;
                    Ok(Transition { property, duration, delay: 0 })
                },
                _ => Err(CustomParseError::InvalidValue("transition".to_owned())),
            }
        },
        _ => Err(CustomParseError::InvalidValue("transition".to_owned())),
    }
}

/// Parses a whole stylesheet text into rules, collecting the errors of
/// malformed parts.  A bad selector list skips its whole block; a bad
/// declaration skips only itself.  Rule ids continue from `first_rule_id`;
/// the rules and errors are [`spec_parse_rules`] of [`spec_tokenize`] of
/// the text.
pub fn parse_rules(text: &str, first_rule_id: usize, errors: &mut Vec<CustomParseError>) -> (rules:
    Vec<crate::style_types::StyleRule>)
    requires
        first_rule_id + 1000000000 <= usize::MAX,
    ensures
        rules@.len() <= 1000000000,
        forall|k: int|
            0 <= k < rules@.len() ==> (#[trigger] rules@[k]).id == crate::style_types::Rule(
                (first_rule_id + k) as usize,
            ),
        final(errors)@.len() >= old(errors)@.len(),
        final(errors)@.take(old(errors)@.len() as int) == old(errors)@,
        exists|toks: Seq<Token>|
            #![auto]
            toks.map_values(|t: Token| tok_view(t)) == spec_tokenize(text@)
                && spec_parse_rules(toks, first_rule_id as int) == (
                rules@.map_values(|r: crate::style_types::StyleRule| rule_view(r)),
                final(errors)@.map_values(|e: CustomParseError| err_view(e)).skip(
                    old(errors)@.len() as int,
                ),
            ),
{
    let toks = tokenize(text);
    let rules = parse_rules_tokens(&toks, first_rule_id, errors);
    proof {
        assert(toks@.map_values(|t: Token| tok_view(t)) == spec_tokenize(text@));
    }
    rules
}

} // verus!
