//! The stylesheet parser: CSS text (as bytes) to a deduplicated
//! [`crate::stylesheet::Stylesheet`].
//!
//! The grammar is a rule list: each top-level construct is either a qualified
//! rule — selector text, `{`, declarations, `}` — or an at-rule, which is
//! unsupported and kept as a placeholder. Declarations are parsed against a
//! fixed table of recognized properties; an unrecognized property or value is
//! a per-declaration error: that declaration is skipped and parsing
//! continues. Following CSS error recovery, the end of input closes any open
//! construct. Every parsed rule is fed to the cascade engine immediately, so
//! the resulting stylesheet is the fold of rule insertion over the rules in
//! source order.

use vstd::prelude::*;
use crate::properties::PropertyDeclaration;
use crate::specified;
use crate::specified::ascii_lower;
use crate::stylesheet::{
    add_rule_model, CssRule, RuleModel, StyleRule, StyleRuleModel, Stylesheet,
};

verus! {

/// The kind of CSS-grammar violation a parse error reports.
#[derive(Clone, Copy, Debug, PartialEq, Eq, Structural)]
pub enum StyleParseErrorKind {
    /// The input ended where a construct (a rule's `{` block) was required.
    UnexpectedEof,
    /// A qualified rule with an empty selector list.
    InvalidSelector,
    /// A value that is not the expected kind of token.
    UnexpectedToken,
}

/// A located parse error.
#[derive(Clone, Copy, Debug, PartialEq, Eq, Structural)]
pub struct ParseError {
    /// Byte offset into the source where the error was detected.
    pub offset: usize,
    /// What was wrong.
    pub kind: StyleParseErrorKind,
}

/// The model of a parse error, with an unbounded offset.
pub ghost struct ParseErrorModel {
    pub offset: int,
    pub kind: StyleParseErrorKind,
}

impl View for ParseError {
    type V = ParseErrorModel;

    open spec fn view(&self) -> ParseErrorModel {
        ParseErrorModel { offset: self.offset as int, kind: self.kind }
    }
}

/// CSS white space: space, tab, line feed, carriage return, form feed.
pub open spec fn is_ws(b: u8) -> bool {
    b == 32 || b == 9 || b == 10 || b == 13 || b == 12
}

/// An ASCII decimal digit.
pub open spec fn is_digit(b: u8) -> bool {
    48 <= b <= 57
}

/// A byte of a property-name identifier: an ASCII letter or `-`.
pub open spec fn is_ident_byte(b: u8) -> bool {
    (97 <= b <= 122) || (65 <= b <= 90) || b == 45
}

/// The first index at or after `i` holding a non-white-space byte, or the
/// length.
pub open spec fn skip_ws_spec(s: Seq<u8>, i: int) -> int
    decreases s.len() - i,
{
    if i < 0 || i >= s.len() {
        s.len() as int
    } else if is_ws(s[i]) {
        skip_ws_spec(s, i + 1)
    } else {
        i
    }
}

/// The first index at or after `i` holding `{` (123), or the length.
pub open spec fn find_open_spec(s: Seq<u8>, i: int) -> int
    decreases s.len() - i,
{
    if i < 0 || i >= s.len() {
        s.len() as int
    } else if s[i] == 123 {
        i
    } else {
        find_open_spec(s, i + 1)
    }
}

/// The end of a declaration's value text: the first index at or after `i`
/// holding `;` (59) or `}` (125), or the length.
pub open spec fn value_end_spec(s: Seq<u8>, i: int) -> int
    decreases s.len() - i,
{
    if i < 0 || i >= s.len() {
        s.len() as int
    } else if s[i] == 59 || s[i] == 125 {
        i
    } else {
        value_end_spec(s, i + 1)
    }
}

/// The end of an identifier starting at `i`: the first index holding a
/// non-identifier byte, or the length.
pub open spec fn ident_end_spec(s: Seq<u8>, i: int) -> int
    decreases s.len() - i,
{
    if i < 0 || i >= s.len() {
        s.len() as int
    } else if is_ident_byte(s[i]) {
        ident_end_spec(s, i + 1)
    } else {
        i
    }
}

/// The end of a digit run starting at `i`.
pub open spec fn digits_end_spec(s: Seq<u8>, i: int) -> int
    decreases s.len() - i,
{
    if i < 0 || i >= s.len() {
        s.len() as int
    } else if is_digit(s[i]) {
        digits_end_spec(s, i + 1)
    } else {
        i
    }
}

/// `to`, backed up over trailing white space, but not before `from`.
pub open spec fn trim_end_spec(s: Seq<u8>, from: int, to: int) -> int
    decreases to - from,
{
    if to <= from {
        from
    } else if is_ws(s[to - 1]) {
        trim_end_spec(s, from, to - 1)
    } else {
        to
    }
}

/// The position just after an at-rule whose prelude starts at `i` with block
/// depth `depth`: after the `;` ending a block-less at-rule, after the `}`
/// closing its top block, or the end of input, which closes anything open.
pub open spec fn at_rule_end_spec(s: Seq<u8>, i: int, depth: int) -> int
    decreases s.len() - i,
{
    if i < 0 || i >= s.len() {
        s.len() as int
    } else if depth == 0 && s[i] == 59 {
        i + 1
    } else if s[i] == 123 {
        at_rule_end_spec(s, i + 1, depth + 1)
    } else if s[i] == 125 && depth == 1 {
        i + 1
    } else if s[i] == 125 && depth > 1 {
        at_rule_end_spec(s, i + 1, depth - 1)
    } else {
        at_rule_end_spec(s, i + 1, depth)
    }
}

/// The numeric value of the digit run `s[i..j]`, most significant first.
pub open spec fn digits_val_spec(s: Seq<u8>, i: int, j: int) -> int
    decreases j - i,
{
    if j <= i {
        0
    } else {
        digits_val_spec(s, i, j - 1) * 10 + (s[j - 1] - 48)
    }
}



/// The position after per-declaration error recovery from `i`: just past the
/// next `;` (59), or at the closing `}` (125) or the end of input.
pub open spec fn recover_spec(s: Seq<u8>, i: int) -> int
    decreases s.len() - i,
{
    if i < 0 || i >= s.len() {
        s.len() as int
    } else if s[i] == 59 {
        i + 1
    } else if s[i] == 125 {
        i
    } else {
        recover_spec(s, i + 1)
    }
}

/// `recover_spec` stays within `[i, len]`.
proof fn lemma_recover_bounds(s: Seq<u8>, i: int)
    requires
        0 <= i <= s.len(),
    ensures
        i <= recover_spec(s, i) <= s.len(),
    decreases s.len() - i,
{
    if i < s.len() && s[i] != 59 && s[i] != 125 {
        lemma_recover_bounds(s, i + 1);
    }
}





/// Whether byte `b` is CSS white space.
fn ws_byte(b: u8) -> (r: bool)
    ensures
        r == is_ws(b),
{
    b == 32 || b == 9 || b == 10 || b == 13 || b == 12
}

/// Skip white space from `i`.
fn skip_ws(s: &[u8], i: usize) -> (j: usize)
    requires
        i <= s@.len(),
    ensures
        j as int == skip_ws_spec(s@, i as int),
        i <= j <= s@.len(),
    decreases s@.len() - i,
{
    let n = s.len();
    let mut j = i;
    while j < n && ws_byte(s[j])
        invariant
            i <= j <= n,
            n == s@.len(),
            skip_ws_spec(s@, i as int) == skip_ws_spec(s@, j as int),
        decreases n - j,
    {
        j += 1;
    }
    j
}

/// Find the next `{` from `i`.
fn find_open(s: &[u8], i: usize) -> (j: usize)
    requires
        i <= s@.len(),
    ensures
        j as int == find_open_spec(s@, i as int),
        i <= j <= s@.len(),
{
    let n = s.len();
    let mut j = i;
    while j < n && s[j] != 123
        invariant
            i <= j <= n,
            n == s@.len(),
            find_open_spec(s@, i as int) == find_open_spec(s@, j as int),
        decreases n - j,
    {
        j += 1;
    }
    j
}

/// Find the end of a value text from `i`.
fn value_end(s: &[u8], i: usize) -> (j: usize)
    requires
        i <= s@.len(),
    ensures
        j as int == value_end_spec(s@, i as int),
        i <= j <= s@.len(),
{
    let n = s.len();
    let mut j = i;
    while j < n && s[j] != 59 && s[j] != 125
        invariant
            i <= j <= n,
            n == s@.len(),
            value_end_spec(s@, i as int) == value_end_spec(s@, j as int),
        decreases n - j,
    {
        j += 1;
    }
    j
}

/// Find the end of an identifier from `i`.
fn ident_end(s: &[u8], i: usize) -> (j: usize)
    requires
        i <= s@.len(),
    ensures
        j as int == ident_end_spec(s@, i as int),
        i <= j <= s@.len(),
{
    let n = s.len();
    let mut j = i;
    while j < n && (  (97 <= s[j] && s[j] <= 122) || (65 <= s[j] && s[j] <= 90) || s[j] == 45 )
        invariant
            i <= j <= n,
            n == s@.len(),
            ident_end_spec(s@, i as int) == ident_end_spec(s@, j as int),
        decreases n - j,
    {
        j += 1;
    }
    j
}

/// Back up over trailing white space.
fn trim_end(s: &[u8], from: usize, to: usize) -> (j: usize)
    requires
        from <= to <= s@.len(),
    ensures
        j as int == trim_end_spec(s@, from as int, to as int),
        from <= j <= to,
{
    let mut j = to;
    while j > from && ws_byte(s[j - 1])
        invariant
            from <= j <= to,
            to <= s@.len(),
            trim_end_spec(s@, from as int, to as int) == trim_end_spec(s@, from as int, j as int),
        decreases j,
    {
        j -= 1;
    }
    j
}

/// The largest whole-number part a CSS number may carry here, in units as
/// written: anything larger is rejected as a parse error of that declaration.
pub open spec fn max_int_part() -> int {
    1_000_000_000
}

/// `10^(6 - nfrac)`: what one unit of the last written fraction digit is
/// worth in scaled magnitude units, for 1 to 6 fraction digits.
pub open spec fn frac_scale(nfrac: int) -> int {
    if nfrac <= 1 {
        100_000
    } else if nfrac == 2 {
        10_000
    } else if nfrac == 3 {
        1_000
    } else if nfrac == 4 {
        100
    } else if nfrac == 5 {
        10
    } else {
        1
    }
}

/// Parse a CSS number at the start of `v`: an optional sign, a whole part,
/// and an optional `.` fraction of one to six digits — at least one digit in
/// all. The result is the value scaled by `crate::computed::NUM_SCALE`
/// (exact: six fraction digits are representable), with the index just past
/// the number. Numbers with a whole part beyond `max_int_part`, or more than
/// six fraction digits, are rejected.
pub open spec fn parse_number_spec(v: Seq<u8>) -> Option<(int, int)> {
    let len = v.len() as int;
    let i0: int = if len > 0 && (v[0] == 43 || v[0] == 45) {
        1
    } else {
        0
    };
    let sgn: int = if len > 0 && v[0] == 45 {
        -1
    } else {
        1
    };
    let ie = digits_end_spec(v, i0);
    let iv = digits_val_spec(v, i0, ie);
    if ie < len && v[ie] == 46 {
        let fs = ie + 1;
        let fe = digits_end_spec(v, fs);
        let nfrac = fe - fs;
        if nfrac < 1 || nfrac > 6 || iv > max_int_part() {
            None
        } else {
            Some((sgn * (iv * 1_000_000 + digits_val_spec(v, fs, fe) * frac_scale(nfrac)), fe))
        }
    } else if ie == i0 {
        None
    } else if iv > max_int_part() {
        None
    } else {
        Some((sgn * iv * 1_000_000, ie))
    }
}

/// Scan a digit run from `start`: its end, and its value unless it exceeds
/// `max_int_part`.
fn scan_digits(s: &[u8], start: usize) -> (r: (i64, bool, usize))
    requires
        start <= s@.len(),
    ensures
        r.2 as int == digits_end_spec(s@, start as int),
        start <= r.2 <= s@.len(),
        forall|k: int| start <= k < r.2 ==> is_digit(#[trigger] s@[k]),
        !r.1 ==> r.0 as int == digits_val_spec(s@, start as int, r.2 as int) && 0 <= r.0
            <= 1_000_000_000,
        r.1 ==> digits_val_spec(s@, start as int, r.2 as int) > 1_000_000_000,
{
    let n = s.len();
    let mut j = start;
    let mut acc: i64 = 0;
    let mut over = false;
    while j < n && 48 <= s[j] && s[j] <= 57
        invariant
            start <= j <= n,
            n == s@.len(),
            digits_end_spec(s@, start as int) == digits_end_spec(s@, j as int),
            forall|k: int| start <= k < j ==> is_digit(#[trigger] s@[k]),
            !over ==> acc as int == digits_val_spec(s@, start as int, j as int) && 0 <= acc
                <= 1_000_000_000,
            over ==> digits_val_spec(s@, start as int, j as int) > 1_000_000_000,
        decreases n - j,
    {
        let d = (s[j] - 48) as i64;
        if !over {
            let na = acc * 10 + d;
            if na > 1_000_000_000 {
                over = true;
            } else {
                acc = na;
            }
        }
        j += 1;
    }
    (acc, over, j)
}

/// Parse a CSS number at the start of `v`.
#[verifier::rlimit(60)]
fn parse_number(v: &[u8]) -> (r: Option<(i64, usize)>)
    ensures
        parse_number_spec(v@) is Some <==> r is Some,
        r matches Some(p) ==> parse_number_spec(v@) == Some((p.0 as int, p.1 as int)) && p.1
            <= v@.len(),
{
    let n = v.len();
    let neg = n > 0 && v[0] == 45;
    let signed = n > 0 && (v[0] == 43 || v[0] == 45);
    let i0: usize = if signed {
        1
    } else {
        0
    };
    let (iv, iover, ie) = scan_digits(v, i0);
    if ie < n && v[ie] == 46 {
        let fs = ie + 1;
        let (fv, fover, fe) = scan_digits(v, fs);
        let nfrac = fe - fs;
        if nfrac < 1 || nfrac > 6 || iover {
            return None;
        }
        proof {
            lemma_frac_digits_bound(v@, fs as int, fe as int);
            assert(!fover);
        }
        let prod = scale_frac(fv, nfrac);
        let mag = iv * 1_000_000 + prod;
        proof {
            let expect: int = iv as int * 1_000_000 + digits_val_spec(v@, fs as int, fe as int)
                * frac_scale(nfrac as int);
            assert(mag as int == expect);
            if neg {
                assert(parse_number_spec(v@) == Some((-1 * expect, fe as int)));
                assert(-1 * expect == -(mag as int));
            } else {
                assert(parse_number_spec(v@) == Some((1 * expect, fe as int)));
                assert(1 * expect == mag as int);
            }
        }
        if neg {
            Some((-mag, fe))
        } else {
            Some((mag, fe))
        }
    } else if ie == i0 || iover {
        None
    } else {
        let mag = iv * 1_000_000;
        proof {
            if neg {
                assert(parse_number_spec(v@) == Some((-1 * (iv as int) * 1_000_000, ie as int)));
                assert(-1 * (iv as int) * 1_000_000 == -(mag as int)) by (nonlinear_arith)
                    requires mag as int == iv as int * 1_000_000;
            } else {
                assert(parse_number_spec(v@) == Some((1 * (iv as int) * 1_000_000, ie as int)));
                assert(1 * (iv as int) * 1_000_000 == mag as int) by (nonlinear_arith)
                    requires mag as int == iv as int * 1_000_000;
            }
        }
        if neg {
            Some((-mag, ie))
        } else {
            Some((mag, ie))
        }
    }
}

/// Powers of ten.
pub open spec fn ten_pow(k: int) -> int
    decreases k,
{
    if k <= 0 {
        1
    } else {
        10 * ten_pow(k - 1)
    }
}

/// A digit run of `j - i` digits values below `10^(j - i)`.
proof fn lemma_digits_val_lt(s: Seq<u8>, i: int, j: int)
    requires
        0 <= i <= j <= s.len(),
        forall|k: int| i <= k < j ==> is_digit(#[trigger] s[k]),
    ensures
        0 <= digits_val_spec(s, i, j) < ten_pow(j - i),
    decreases j - i,
{
    if j > i {
        lemma_digits_val_lt(s, i, j - 1);
        assert(is_digit(s[j - 1]));
        assert(ten_pow(j - i) == 10 * ten_pow(j - i - 1));
    }
}

/// `v`, each byte ASCII-lower-cased.
pub open spec fn lowered(v: Seq<u8>) -> Seq<u8> {
    v.map_values(|b: u8| ascii_lower(b))
}

/// Whether a value text is the keyword `auto`, ASCII-case-insensitively.
pub open spec fn is_auto_value(v: Seq<u8>) -> bool {
    v.len() == 4 && ascii_lower(v[0]) == 97 && ascii_lower(v[1]) == 117 && ascii_lower(v[2]) == 116
        && ascii_lower(v[3]) == 111
}

/// The specified length a value text denotes: a number immediately followed
/// by an absolute unit, together consuming the whole text. Anything else —
/// including a bare number — is rejected.
pub open spec fn parse_length_value_spec(v: Seq<u8>) -> Option<specified::LengthPercentage> {
    match parse_number_spec(v) {
        Option::None => Option::None,
        Option::Some(p) => if p.1 >= v.len() {
            Option::None
        } else {
            match specified::parse_dimension_spec(p.0 as i64, v.subrange(p.1, v.len() as int)) {
                Ok(ncl) => Option::Some(specified::LengthPercentage::Length(ncl)),
                Err(_) => Option::None,
            }
        },
    }
}

/// The specified length-or-auto a value text denotes: the keyword `auto` or
/// a dimension.
pub open spec fn parse_margin_value_spec(v: Seq<u8>) -> Option<specified::LengthPercentageOrAuto> {
    if is_auto_value(v) {
        Option::Some(specified::LengthPercentageOrAuto::Auto)
    } else {
        match parse_length_value_spec(v) {
            Option::Some(lp) => Option::Some(
                specified::LengthPercentageOrAuto::LengthPercentage(lp),
            ),
            Option::None => Option::None,
        }
    }
}

/// The declaration a `name: value` pair denotes, against the fixed table of
/// recognized properties; `None` for an unknown property or a value the
/// property does not accept.
pub open spec fn parse_decl_value_spec(name: Seq<u8>, v: Seq<u8>) -> Option<PropertyDeclaration> {
    let n = lowered(name);
    if n == name_font_size() {
        match parse_length_value_spec(v) {
            Option::Some(lp) => Option::Some(PropertyDeclaration::FontSize(lp)),
            Option::None => Option::None,
        }
    } else if n == name_margin_top() {
        match parse_margin_value_spec(v) {
            Option::Some(x) => Option::Some(PropertyDeclaration::MarginTop(x)),
            Option::None => Option::None,
        }
    } else if n == name_margin_bottom() {
        match parse_margin_value_spec(v) {
            Option::Some(x) => Option::Some(PropertyDeclaration::MarginBottom(x)),
            Option::None => Option::None,
        }
    } else if n == name_margin_left() {
        match parse_margin_value_spec(v) {
            Option::Some(x) => Option::Some(PropertyDeclaration::MarginLeft(x)),
            Option::None => Option::None,
        }
    } else if n == name_margin_right() {
        match parse_margin_value_spec(v) {
            Option::Some(x) => Option::Some(PropertyDeclaration::MarginRight(x)),
            Option::None => Option::None,
        }
    } else {
        Option::None
    }
}

/// The bytes of `font-size`.
pub open spec fn name_font_size() -> Seq<u8> {
    seq![102u8, 111u8, 110u8, 116u8, 45u8, 115u8, 105u8, 122u8, 101u8]
}

/// The bytes of `margin-top`.
pub open spec fn name_margin_top() -> Seq<u8> {
    seq![109u8, 97u8, 114u8, 103u8, 105u8, 110u8, 45u8, 116u8, 111u8, 112u8]
}

/// The bytes of `margin-bottom`.
pub open spec fn name_margin_bottom() -> Seq<u8> {
    seq![109u8, 97u8, 114u8, 103u8, 105u8, 110u8, 45u8, 98u8, 111u8, 116u8, 116u8, 111u8, 109u8]
}

/// The bytes of `margin-left`.
pub open spec fn name_margin_left() -> Seq<u8> {
    seq![109u8, 97u8, 114u8, 103u8, 105u8, 110u8, 45u8, 108u8, 101u8, 102u8, 116u8]
}

/// The bytes of `margin-right`.
pub open spec fn name_margin_right() -> Seq<u8> {
    seq![109u8, 97u8, 114u8, 103u8, 105u8, 110u8, 45u8, 114u8, 105u8, 103u8, 104u8, 116u8]
}

/// Whether `s[from..to]`, lower-cased, equals `lit`.
fn eq_lower_lit<const N: usize>(s: &[u8], from: usize, to: usize, lit: &[u8; N]) -> (r: bool)
    requires
        from <= to <= s@.len(),
    ensures
        r <==> lowered(s@.subrange(from as int, to as int)) == lit@,
{
    let ghost sub = s@.subrange(from as int, to as int);
    if to - from != N {
        proof {
            assert(lowered(sub).len() == sub.len());
            assert(lit@.len() == N as int);
        }
        return false;
    }
    let mut k: usize = 0;
    while k < N
        invariant
            k <= N,
            from + N <= s@.len(),
            to == from + N,
            sub == s@.subrange(from as int, to as int),
            lit@.len() == N as int,
            forall|t: int| 0 <= t < k ==> lowered(sub)[t] == lit@[t],
        decreases N - k,
    {
        let lb = specified::ascii_lower_byte(s[from + k]);
        if lb != lit[k] {
            proof {
                assert(lowered(sub)[k as int] == ascii_lower(sub[k as int]));
                assert(sub[k as int] == s@[from + k]);
                assert(lowered(sub)[k as int] != lit@[k as int]);
            }
            return false;
        }
        proof {
            assert(lowered(sub)[k as int] == ascii_lower(sub[k as int]));
            assert(sub[k as int] == s@[from + k]);
        }
        k += 1;
    }
    proof {
        assert(lowered(sub) =~= lit@);
    }
    true
}

/// Parse a value text as a specified length.
fn parse_length_value(v: &[u8]) -> (r: Option<specified::LengthPercentage>)
    ensures
        r == parse_length_value_spec(v@),
{
    match parse_number(v) {
        Option::None => Option::None,
        Option::Some((val, end)) => {
            if end >= v.len() {
                Option::None
            } else {
                let unit = vstd::slice::slice_subrange(v, end, v.len());
                match specified::NoCalcLength::parse_dimension(val, unit) {
                    Ok(ncl) => Option::Some(specified::LengthPercentage::Length(ncl)),
                    Err(_) => Option::None,
                }
            }
        },
    }
}

/// Parse a value text as a specified length-or-auto.
fn parse_margin_value(v: &[u8]) -> (r: Option<specified::LengthPercentageOrAuto>)
    ensures
        r == parse_margin_value_spec(v@),
{
    let is_auto = v.len() == 4 && specified::ascii_lower_byte(v[0]) == 97
        && specified::ascii_lower_byte(v[1]) == 117 && specified::ascii_lower_byte(v[2]) == 116
        && specified::ascii_lower_byte(v[3]) == 111;
    if is_auto {
        Option::Some(specified::LengthPercentageOrAuto::Auto)
    } else {
        match parse_length_value(v) {
            Option::Some(lp) => Option::Some(
                specified::LengthPercentageOrAuto::LengthPercentage(lp),
            ),
            Option::None => Option::None,
        }
    }
}

impl specified::LengthPercentage {
    /// Parse a value text as a specified `<length-percentage>`: a dimension
    /// with an absolute unit. Anything else is an error, located at the
    /// start of the value text.
    pub fn parse(input: &[u8]) -> (r: Result<specified::LengthPercentage, ParseError>)
        ensures
            ({
                match parse_length_value_spec(input@) {
                    Option::Some(lp) => r == Ok::<specified::LengthPercentage, ParseError>(lp),
                    Option::None => r matches Err(e) && e@.offset == 0 && e@.kind
                        == StyleParseErrorKind::UnexpectedToken,
                }
            }),
    {
        match parse_length_value(input) {
            Option::Some(lp) => Ok(lp),
            Option::None => Err(
                ParseError { offset: 0, kind: StyleParseErrorKind::UnexpectedToken },
            ),
        }
    }
}

/// Parse the declaration `s[ns_..ne]: s[vs..ve]` against the property table.
fn parse_decl_value(s: &[u8], ns_: usize, ne: usize, vs: usize, ve: usize) -> (r: Option<
    PropertyDeclaration,
>)
    requires
        ns_ <= ne <= s@.len(),
        vs <= ve <= s@.len(),
    ensures
        r == parse_decl_value_spec(
            s@.subrange(ns_ as int, ne as int),
            s@.subrange(vs as int, ve as int),
        ),
{
    let v = vstd::slice::slice_subrange(s, vs, ve);
    let lit_font_size: [u8; 9] = [102, 111, 110, 116, 45, 115, 105, 122, 101];
    let lit_margin_top: [u8; 10] = [109, 97, 114, 103, 105, 110, 45, 116, 111, 112];
    let lit_margin_bottom: [u8; 13] = [
        109,
        97,
        114,
        103,
        105,
        110,
        45,
        98,
        111,
        116,
        116,
        111,
        109,
    ];
    let lit_margin_left: [u8; 11] = [109, 97, 114, 103, 105, 110, 45, 108, 101, 102, 116];
    let lit_margin_right: [u8; 12] = [109, 97, 114, 103, 105, 110, 45, 114, 105, 103, 104, 116];
    proof {
        assert(lit_font_size@ =~= name_font_size());
        assert(lit_margin_top@ =~= name_margin_top());
        assert(lit_margin_bottom@ =~= name_margin_bottom());
        assert(lit_margin_left@ =~= name_margin_left());
        assert(lit_margin_right@ =~= name_margin_right());
    }
    if eq_lower_lit(s, ns_, ne, &lit_font_size) {
        match parse_length_value(v) {
            Option::Some(lp) => Option::Some(PropertyDeclaration::FontSize(lp)),
            Option::None => Option::None,
        }
    } else if eq_lower_lit(s, ns_, ne, &lit_margin_top) {
        match parse_margin_value(v) {
            Option::Some(x) => Option::Some(PropertyDeclaration::MarginTop(x)),
            Option::None => Option::None,
        }
    } else if eq_lower_lit(s, ns_, ne, &lit_margin_bottom) {
        match parse_margin_value(v) {
            Option::Some(x) => Option::Some(PropertyDeclaration::MarginBottom(x)),
            Option::None => Option::None,
        }
    } else if eq_lower_lit(s, ns_, ne, &lit_margin_left) {
        match parse_margin_value(v) {
            Option::Some(x) => Option::Some(PropertyDeclaration::MarginLeft(x)),
            Option::None => Option::None,
        }
    } else if eq_lower_lit(s, ns_, ne, &lit_margin_right) {
        match parse_margin_value(v) {
            Option::Some(x) => Option::Some(PropertyDeclaration::MarginRight(x)),
            Option::None => Option::None,
        }
    } else {
        Option::None
    }
}

/// A run of at most six digits values below one million.
proof fn lemma_frac_digits_bound(s: Seq<u8>, i: int, j: int)
    requires
        0 <= i <= j <= s.len(),
        j - i <= 6,
        forall|k: int| i <= k < j ==> is_digit(#[trigger] s[k]),
    ensures
        0 <= digits_val_spec(s, i, j) < 1_000_000,
{
    lemma_digits_val_lt(s, i, j);
    reveal_with_fuel(ten_pow, 8);
    let k = j - i;
    if k == 0 {
        assert(ten_pow(0) == 1);
    } else if k == 1 {
        assert(ten_pow(1) == 10);
    } else if k == 2 {
        assert(ten_pow(2) == 100);
    } else if k == 3 {
        assert(ten_pow(3) == 1_000);
    } else if k == 4 {
        assert(ten_pow(4) == 10_000);
    } else if k == 5 {
        assert(ten_pow(5) == 100_000);
    } else {
        assert(ten_pow(6) == 1_000_000);
    }
}

/// Scale a fraction value of `nfrac` digits to millionths.
fn scale_frac(fv: i64, nfrac: usize) -> (r: i64)
    requires
        1 <= nfrac <= 6,
        0 <= fv < 1_000_000,
    ensures
        r as int == fv * frac_scale(nfrac as int),
        0 <= r < 100_000_000_000,
{
    if nfrac == 1 {
        fv * 100_000
    } else if nfrac == 2 {
        fv * 10_000
    } else if nfrac == 3 {
        fv * 1_000
    } else if nfrac == 4 {
        fv * 100
    } else if nfrac == 5 {
        fv * 10
    } else {
        fv
    }
}

/// Skip past an at-rule whose prelude starts at `i`.
fn at_rule_end(s: &[u8], i: usize) -> (j: usize)
    requires
        i <= s@.len(),
    ensures
        j as int == at_rule_end_spec(s@, i as int, 0),
        i <= j <= s@.len(),
{
    let n = s.len();
    let mut j = i;
    let mut depth: usize = 0;
    loop
        invariant
            i <= j <= n,
            n == s@.len(),
            at_rule_end_spec(s@, i as int, 0) == at_rule_end_spec(s@, j as int, depth as int),
            depth <= j - i,
        decreases n - j,
    {
        if j >= n {
            return n;
        }
        let b = s[j];
        if depth == 0 && b == 59 {
            return j + 1;
        } else if b == 123 {
            depth += 1;
        } else if b == 125 && depth == 1 {
            return j + 1;
        } else if b == 125 && depth > 1 {
            depth -= 1;
        }
        j += 1;
    }
}


/// The parse of one declaration at `i`: the declaration, or `None` after
/// per-declaration recovery, and the position to continue from. A missing
/// name or `:` skips to the next `;` or the end of the block; an unknown
/// property or bad value consumes the declaration and yields nothing.
pub open spec fn parse_decl_spec(s: Seq<u8>, i: int) -> (Option<PropertyDeclaration>, int) {
    let len = s.len() as int;
    let ie = ident_end_spec(s, i);
    if ie == i {
        (Option::None::<PropertyDeclaration>, recover_spec(s, i))
    } else {
        let w = skip_ws_spec(s, ie);
        if w >= len || s[w] != 58 {
            (Option::None::<PropertyDeclaration>, recover_spec(s, w))
        } else {
            let v0 = skip_ws_spec(s, w + 1);
            let ve = value_end_spec(s, v0);
            let vt = trim_end_spec(s, v0, ve);
            let d = parse_decl_value_spec(s.subrange(i, ie), s.subrange(v0, vt));
            let nxt = if ve < len && s[ve] == 59 {
                ve + 1
            } else {
                ve
            };
            (d, nxt)
        }
    }
}

/// The parse of a declaration list from `i` up to and past the closing `}`
/// (or the end of input): the declarations recognized, and the position
/// after the block.
pub open spec fn parse_block_spec(s: Seq<u8>, i: int) -> (Seq<PropertyDeclaration>, int)
    decreases s.len() - i,
{
    let len = s.len() as int;
    let j = skip_ws_spec(s, i);
    if i < 0 || j >= len || j < i {
        (Seq::<PropertyDeclaration>::empty(), len)
    } else if s[j] == 125 {
        (Seq::<PropertyDeclaration>::empty(), j + 1)
    } else if s[j] == 59 {
        parse_block_spec(s, j + 1)
    } else {
        let step = parse_decl_spec(s, j);
        if step.1 > j && step.1 <= len {
            let rest = parse_block_spec(s, step.1);
            match step.0 {
                Option::Some(d) => (seq![d] + rest.0, rest.1),
                Option::None => rest,
            }
        } else {
            (Seq::<PropertyDeclaration>::empty(), len)
        }
    }
}

/// Per-declaration error recovery: skip to just past the next `;`, or to the
/// closing `}` or the end of input.
fn recover(s: &[u8], i: usize) -> (j: usize)
    requires
        i <= s@.len(),
    ensures
        j as int == recover_spec(s@, i as int),
        i <= j <= s@.len(),
{
    let n = s.len();
    let mut j = i;
    while j < n && s[j] != 59 && s[j] != 125
        invariant
            i <= j <= n,
            n == s@.len(),
            recover_spec(s@, i as int) == recover_spec(s@, j as int),
        decreases n - j,
    {
        j += 1;
    }
    if j < n && s[j] == 59 {
        j + 1
    } else {
        j
    }
}

/// Parse one declaration at `i` (which must not point at `;`, `}` or the
/// end).
fn parse_decl(s: &[u8], i: usize) -> (r: (Option<PropertyDeclaration>, usize))
    requires
        i < s@.len(),
        s@[i as int] != 59,
        s@[i as int] != 125,
    ensures
        r.0 == parse_decl_spec(s@, i as int).0,
        r.1 as int == parse_decl_spec(s@, i as int).1,
        i < r.1 <= s@.len(),
{
    let n = s.len();
    let ie = ident_end(s, i);
    if ie == i {
        let rp = recover(s, i);
        proof {
            lemma_recover_bounds(s@, i as int + 1);
        }
        (Option::None, rp)
    } else {
        let w = skip_ws(s, ie);
        if w >= n || s[w] != 58 {
            let rp = recover(s, w);
            (Option::None, rp)
        } else {
            let v0 = skip_ws(s, w + 1);
            let ve = value_end(s, v0);
            let vt = trim_end(s, v0, ve);
            let d = parse_decl_value(s, i, ie, v0, vt);
            let nxt = if ve < n && s[ve] == 59 {
                ve + 1
            } else {
                ve
            };
            (d, nxt)
        }
    }
}

/// Parse a declaration list up to and past the closing `}`.
fn parse_block(s: &[u8], i: usize) -> (r: (Vec<PropertyDeclaration>, usize))
    requires
        i <= s@.len(),
    ensures
        r.0@ == parse_block_spec(s@, i as int).0,
        r.1 as int == parse_block_spec(s@, i as int).1,
        i <= r.1 <= s@.len(),
{
    let n = s.len();
    let mut decls: Vec<PropertyDeclaration> = Vec::new();
    let mut j = i;
    loop
        invariant
            i <= j <= n,
            n == s@.len(),
            parse_block_spec(s@, i as int).0 == decls@ + parse_block_spec(s@, j as int).0,
            parse_block_spec(s@, i as int).1 == parse_block_spec(s@, j as int).1,
        decreases n - j,
    {
        let w = skip_ws(s, j);
        if w >= n {
            proof {
                assert(parse_block_spec(s@, j as int).0 =~= Seq::<PropertyDeclaration>::empty());
                assert(decls@ + Seq::<PropertyDeclaration>::empty() =~= decls@);
            }
            return (decls, n);
        }
        if s[w] == 125 {
            proof {
                assert(decls@ + Seq::<PropertyDeclaration>::empty() =~= decls@);
            }
            return (decls, w + 1);
        }
        if s[w] == 59 {
            j = w + 1;
        } else {
            let (d_opt, nxt) = parse_decl(s, w);
            let ghost rest0 = parse_block_spec(s@, nxt as int).0;
            proof {
                match d_opt {
                    Option::Some(d) => {
                        assert(parse_block_spec(s@, j as int).0 =~= seq![d] + rest0);
                        assert(decls@ + (seq![d] + rest0) =~= decls@.push(d) + rest0);
                    },
                    Option::None => {},
                }
            }
            if let Option::Some(d) = d_opt {
                decls.push(d);
            }
            j = nxt;
        }
    }
}

/// One step of the rule-list parse: the input is exhausted, one rule was
/// parsed, or the sheet is malformed.
pub ghost enum RuleStep {
    Done,
    Rule { r: RuleModel, next: int },
    Fail { err: ParseErrorModel },
}

/// Parse one top-level construct at `i`: nothing but trailing white space; an
/// at-rule, kept as an unsupported placeholder; or a qualified rule. A
/// non-empty prelude with no block is a sheet-level error, as is an empty
/// selector list.
pub open spec fn parse_rule_spec(s: Seq<u8>, i: int) -> RuleStep {
    let len = s.len() as int;
    let j = skip_ws_spec(s, i);
    if j >= len {
        RuleStep::Done
    } else if s[j] == 64 {
        RuleStep::Rule { r: RuleModel::Unsupported, next: at_rule_end_spec(s, j + 1, 0) }
    } else {
        let k = find_open_spec(s, j);
        if k >= len {
            RuleStep::Fail {
                err: ParseErrorModel { offset: len, kind: StyleParseErrorKind::UnexpectedEof },
            }
        } else {
            let se = trim_end_spec(s, j, k);
            if se == j {
                RuleStep::Fail {
                    err: ParseErrorModel { offset: j, kind: StyleParseErrorKind::InvalidSelector },
                }
            } else {
                let body = parse_block_spec(s, k + 1);
                RuleStep::Rule {
                    r: RuleModel::Style(
                        StyleRuleModel { selectors: s.subrange(j, se), decls: body.0 },
                    ),
                    next: body.1,
                }
            }
        }
    }
}

/// The outcome of parsing one top-level construct.
enum RuleOutcome {
    Finished,
    Next(CssRule, usize),
    Failed(ParseError),
}

/// Parse one top-level construct at `i`.
fn parse_rule(s: &[u8], i: usize) -> (r: RuleOutcome)
    requires
        i <= s@.len(),
    ensures
        ({
            let sp = parse_rule_spec(s@, i as int);
            match r {
                RuleOutcome::Finished => sp is Done,
                RuleOutcome::Next(rule, nxt) => sp matches RuleStep::Rule { r: rm, next }
                    && rule@ == rm && nxt as int == next && i < nxt <= s@.len(),
                RuleOutcome::Failed(e) => sp matches RuleStep::Fail { err } && e@ == err,
            }
        }),
{
    let n = s.len();
    let j = skip_ws(s, i);
    if j >= n {
        return RuleOutcome::Finished;
    }
    if s[j] == 64 {
        let e = at_rule_end(s, j + 1);
        return RuleOutcome::Next(CssRule::Unsupported, e);
    }
    let k = find_open(s, j);
    if k >= n {
        return RuleOutcome::Failed(
            ParseError { offset: n, kind: StyleParseErrorKind::UnexpectedEof },
        );
    }
    let se = trim_end(s, j, k);
    if se == j {
        return RuleOutcome::Failed(
            ParseError { offset: j, kind: StyleParseErrorKind::InvalidSelector },
        );
    }
    let sel = vstd::slice::slice_to_vec(vstd::slice::slice_subrange(s, j, se));
    let (decls, end) = parse_block(s, k + 1);
    let block = crate::properties::PropertyDeclarationBlock::from_declarations(decls);
    RuleOutcome::Next(CssRule::Style(StyleRule { selectors: sel, block }), end)
}

/// Parse the rule list from `i` to the end of input: the rules in source
/// order, or the first sheet-level error.
pub open spec fn parse_rules_spec(s: Seq<u8>, i: int) -> Result<Seq<RuleModel>, ParseErrorModel>
    decreases s.len() - i,
{
    match parse_rule_spec(s, i) {
        RuleStep::Done => Ok(Seq::<RuleModel>::empty()),
        RuleStep::Fail { err } => Err(err),
        RuleStep::Rule { r, next } => if i < next <= s.len() {
            match parse_rules_spec(s, next) {
                Ok(rest) => Ok(seq![r] + rest),
                Err(e) => Err(e),
            }
        } else {
            Err(ParseErrorModel { offset: s.len() as int, kind: StyleParseErrorKind::UnexpectedEof })
        },
    }
}

/// The stylesheet that results from feeding `rules` to the cascade engine in
/// order, starting from an empty sheet.
pub open spec fn sheet_of_rules_spec(rules: Seq<RuleModel>) -> Seq<RuleModel>
    decreases rules.len(),
{
    if rules.len() == 0 {
        Seq::<RuleModel>::empty()
    } else {
        add_rule_model(sheet_of_rules_spec(rules.drop_last()), rules.last())
    }
}

/// Every stylesheet the cascade engine builds is deduplicated: feeding any
/// rule list to the engine, starting from an empty sheet, yields a sheet
/// that satisfies the stylesheet invariant — so every sheet this parser
/// returns satisfies it.
pub proof fn lemma_sheet_of_rules_deduplicated(rules: Seq<RuleModel>)
    ensures
        crate::stylesheet::sheet_deduplicated(sheet_of_rules_spec(rules)),
    decreases rules.len(),
{
    if rules.len() > 0 {
        lemma_sheet_of_rules_deduplicated(rules.drop_last());
        crate::stylesheet::lemma_add_rule_preserves_dedup(
            sheet_of_rules_spec(rules.drop_last()),
            rules.last(),
        );
    }
}

/// The parse of a whole stylesheet source: its rules in source order, or the
/// first sheet-level error.
pub open spec fn parse_css_spec(s: Seq<u8>) -> Result<Seq<RuleModel>, ParseErrorModel> {
    parse_rules_spec(s, 0)
}

/// Parse CSS source into a stylesheet, feeding every parsed rule to the
/// cascade engine immediately: the result is the fold of rule insertion over
/// the rules in source order, or the first sheet-level parse error.
pub fn parse_css_to_stylesheet(css: &[u8]) -> (r: Result<Stylesheet, ParseError>)
    ensures
        ({
            let sp = parse_css_spec(css@);
            match r {
                Ok(sheet) => sp matches Ok(models) && sheet@ == sheet_of_rules_spec(models)
                    && crate::stylesheet::sheet_deduplicated(sheet@),
                Err(e) => sp matches Err(em) && e@ == em,
            }
        }),
{
    let n = css.len();
    let mut sheet = Stylesheet::new();
    let mut i: usize = 0;
    let ghost mut acc: Seq<RuleModel> = Seq::<RuleModel>::empty();
    proof {
        assert(acc + Seq::<RuleModel>::empty() =~= acc);
    }
    loop
        invariant
            i <= n,
            n == css@.len(),
            sheet@ == sheet_of_rules_spec(acc),
            parse_rules_spec(css@, 0) == (match parse_rules_spec(css@, i as int) {
                Ok(rest) => Ok::<Seq<RuleModel>, ParseErrorModel>(acc + rest),
                Err(e) => Err::<Seq<RuleModel>, ParseErrorModel>(e),
            }),
        decreases n - i,
    {
        match parse_rule(css, i) {
            RuleOutcome::Finished => {
                proof {
                    assert(acc + Seq::<RuleModel>::empty() =~= acc);
                    lemma_sheet_of_rules_deduplicated(acc);
                }
                return Ok(sheet);
            },
            RuleOutcome::Failed(e) => {
                return Err(e);
            },
            RuleOutcome::Next(rule, nxt) => {
                let ghost rm = rule@;
                let ghost acc0 = acc;
                sheet.add_rule(rule);
                proof {
                    acc = acc0.push(rm);
                    assert(acc.drop_last() =~= acc0);
                    assert(acc.last() == rm);
                    assert(sheet@ == sheet_of_rules_spec(acc));
                    match parse_rules_spec(css@, nxt as int) {
                        Ok(rest) => {
                            assert(acc0 + (seq![rm] + rest) =~= acc + rest);
                        },
                        Err(_) => {},
                    }
                }
                i = nxt;
            },
        }
    }
}

} // verus!
