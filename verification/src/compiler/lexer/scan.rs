//! Recognizes the next token of a source: the longest slice that a token's
//! pattern matches, fixed texts winning over patterns on equal length.
use crate::compiler::lexer::tokens::{
    Token, is_digit_byte, is_ident_byte, is_regex_token, literal, token_matches,
};
use vstd::prelude::*;

verus! {

/// A byte that continues a UTF-8 encoded character.
pub open spec fn is_continuation_byte(b: u8) -> bool {
    128u8 <= b < 192u8
}

/// `start` is the first byte at or after `pos` that is not a space (32).
pub open spec fn skips_spaces(s: Seq<u8>, pos: int, start: int) -> bool {
    &&& pos <= start <= s.len()
    &&& forall|k: int| pos <= k < start ==> #[trigger] s[k] == 32u8
    &&& start < s.len() ==> s[start] != 32u8
}

/// No slice starting at `start` matches any token.
pub open spec fn no_match(s: Seq<u8>, start: int) -> bool {
    forall|e: int, t: Token|
        start < e <= s.len() ==> !#[trigger] token_matches(t, #[trigger] s.subrange(start, e))
}

/// `s[start..end]` is the longest slice that a token matches, and `tok` is the token
/// that matches it, a fixed text taking priority over a pattern.
pub open spec fn longest_match(s: Seq<u8>, start: int, end: int, tok: Token) -> bool {
    &&& start < end <= s.len()
    &&& token_matches(tok, s.subrange(start, end))
    &&& forall|e: int, t: Token|
        end < e <= s.len() ==> !#[trigger] token_matches(t, #[trigger] s.subrange(start, e))
    &&& is_regex_token(tok) ==> forall|t: Token|
        !is_regex_token(t) ==> !#[trigger] token_matches(t, s.subrange(start, end))
}

/// `s[start..end]` is one character: `end` is the first character boundary after `start`.
pub open spec fn one_character(s: Seq<u8>, start: int, end: int) -> bool {
    &&& start < end <= s.len()
    &&& forall|k: int| start < k < end ==> is_continuation_byte(#[trigger] s[k])
    &&& end < s.len() ==> !is_continuation_byte(s[end])
}

/// The token found when scanning `s` from `pos`, and the slice `s[start..end]` it covers.
pub open spec fn scanned(s: Seq<u8>, pos: int, tok: Token, start: int, end: int) -> bool {
    &&& skips_spaces(s, pos, start)
    &&& start == s.len() ==> tok == Token::EndOfFile && end == start
    &&& start < s.len() ==> if no_match(s, start) {
        tok == Token::Invalid && one_character(s, start, end)
    } else {
        longest_match(s, start, end, tok)
    }
}

/// The first index at or after `i` whose byte is not an identifier byte.
fn ident_run_end(s: &[u8], i: usize) -> (j: usize)
    requires
        i <= s@.len(),
    ensures
        i <= j <= s@.len(),
        forall|k: int| i <= k < j ==> is_ident_byte(#[trigger] s@[k]),
        j < s@.len() ==> !is_ident_byte(s@[j as int]),
{
    let mut j = i;
    while j < s.len() && ((97u8 <= s[j] && s[j] <= 122u8) || (65u8 <= s[j] && s[j] <= 90u8) || s[j] == 95u8)
        invariant
            i <= j <= s@.len(),
            forall|k: int| i <= k < j ==> is_ident_byte(#[trigger] s@[k]),
        decreases s@.len() - j,
    {
        j = j + 1;
    }
    j
}

/// The first index at or after `i` whose byte is not a digit.
fn digit_run_end(s: &[u8], i: usize) -> (j: usize)
    requires
        i <= s@.len(),
    ensures
        i <= j <= s@.len(),
        forall|k: int| i <= k < j ==> is_digit_byte(#[trigger] s@[k]),
        j < s@.len() ==> !is_digit_byte(s@[j as int]),
{
    let mut j = i;
    while j < s.len() && 48u8 <= s[j] && s[j] <= 57u8
        invariant
            i <= j <= s@.len(),
            forall|k: int| i <= k < j ==> is_digit_byte(#[trigger] s@[k]),
        decreases s@.len() - j,
    {
        j = j + 1;
    }
    j
}

/// The first index at or after `i` whose byte is not a space.
pub fn space_run_end(s: &[u8], i: usize) -> (j: usize)
    requires
        i <= s@.len(),
    ensures
        skips_spaces(s@, i as int, j as int),
{
    let mut j = i;
    while j < s.len() && s[j] == 32u8
        invariant
            i <= j <= s@.len(),
            forall|k: int| i <= k < j ==> #[trigger] s@[k] == 32u8,
        decreases s@.len() - j,
    {
        j = j + 1;
    }
    j
}

/// The first index after `i` that is a character boundary.
fn character_end(s: &[u8], i: usize) -> (j: usize)
    requires
        i < s@.len(),
        s@.len() <= usize::MAX,
    ensures
        one_character(s@, i as int, j as int),
{
    let mut j = i + 1;
    while j < s.len() && 128u8 <= s[j] && s[j] < 192u8
        invariant
            i < j <= s@.len(),
            forall|k: int| i < k < j ==> is_continuation_byte(#[trigger] s@[k]),
        decreases s@.len() - j,
    {
        j = j + 1;
    }
    j
}

/// The keyword whose text is `s[start..end]`, if any.
fn keyword(s: &[u8], start: usize, end: usize) -> (r: Option<Token>)
    requires
        start < end <= s@.len(),
        forall|k: int| start <= k < end ==> is_ident_byte(#[trigger] s@[k]),
    ensures
        r matches Some(t) ==> !is_regex_token(t) && is_pattern_token_spec(t) && s@.subrange(
            start as int,
            end as int,
        ) == literal(t),
        r is None ==> forall|t: Token|
            !is_regex_token(t) && is_pattern_token_spec(t) ==> s@.subrange(start as int, end as int)
                != literal(t),
{
    let ghost w = s@.subrange(start as int, end as int);
    let n = end - start;
    let b0 = if n > 0 { s[start] } else { 0u8 };
    let b1 = if n > 1 { s[start + 1] } else { 0u8 };
    let b2 = if n > 2 { s[start + 2] } else { 0u8 };
    let b3 = if n > 3 { s[start + 3] } else { 0u8 };
    let b4 = if n > 4 { s[start + 4] } else { 0u8 };
    let b5 = if n > 5 { s[start + 5] } else { 0u8 };
    let r = if n == 2 && b0 == 102u8 && b1 == 110u8 {
        Some(Token::Fn)
    } else if n == 6 && b0 == 114u8 && b1 == 101u8 && b2 == 116u8 && b3 == 117u8 && b4 == 114u8
        && b5 == 110u8 {
        Some(Token::Return)
    } else if n == 2 && b0 == 105u8 && b1 == 102u8 {
        Some(Token::If)
    } else if n == 4 && b0 == 101u8 && b1 == 108u8 && b2 == 115u8 && b3 == 101u8 {
        Some(Token::Else)
    } else if n == 5 && b0 == 119u8 && b1 == 104u8 && b2 == 105u8 && b3 == 108u8 && b4 == 101u8 {
        Some(Token::While)
    } else if n == 3 && b0 == 108u8 && b1 == 101u8 && b2 == 116u8 {
        Some(Token::Let)
    } else if n == 3 && b0 == 109u8 && b1 == 111u8 && b2 == 100u8 {
        Some(Token::Mod)
    } else if n == 3 && b0 == 97u8 && b1 == 110u8 && b2 == 100u8 {
        Some(Token::And)
    } else if n == 2 && b0 == 111u8 && b1 == 114u8 {
        Some(Token::Or)
    } else if n == 3 && b0 == 120u8 && b1 == 111u8 && b2 == 114u8 {
        Some(Token::XOr)
    } else if n == 4 && b0 == 116u8 && b1 == 114u8 && b2 == 117u8 && b3 == 101u8 {
        Some(Token::True)
    } else if n == 5 && b0 == 102u8 && b1 == 97u8 && b2 == 108u8 && b3 == 115u8 && b4 == 101u8 {
        Some(Token::False)
    } else {
        None
    };
    proof {
        if let Some(t) = r {
            assert(w =~= literal(t));
        } else {
            assert forall|t: Token| !is_regex_token(t) && is_pattern_token_spec(t) implies w != literal(t) by {
                if w == literal(t) {
                    let l = literal(t);
                    assert(w.len() == n);
                    assert(is_ident_byte(s@[start as int]));
                    if n > 0 { assert(w[0] == b0); }
                    if n > 1 { assert(w[1] == b1); }
                    if n > 2 { assert(w[2] == b2); }
                    if n > 3 { assert(w[3] == b3); }
                    if n > 4 { assert(w[4] == b4); }
                    if n > 5 { assert(w[5] == b5); }
                    lemma_literal_shape(t);
                }
            }
        }
    }
    r
}

/// The length and bytes of each fixed text, spelled out.
proof fn lemma_literal_shape(t: Token)
    ensures
        match t {
            Token::Fn => literal(t).len() == 2 && literal(t)[0] == 102u8 && literal(t)[1] == 110u8,
            Token::Return => literal(t).len() == 6 && literal(t)[0] == 114u8 && literal(t)[1] == 101u8
                && literal(t)[2] == 116u8 && literal(t)[3] == 117u8 && literal(t)[4] == 114u8
                && literal(t)[5] == 110u8,
            Token::If => literal(t).len() == 2 && literal(t)[0] == 105u8 && literal(t)[1] == 102u8,
            Token::Else => literal(t).len() == 4 && literal(t)[0] == 101u8 && literal(t)[1] == 108u8
                && literal(t)[2] == 115u8 && literal(t)[3] == 101u8,
            Token::While => literal(t).len() == 5 && literal(t)[0] == 119u8 && literal(t)[1] == 104u8
                && literal(t)[2] == 105u8 && literal(t)[3] == 108u8 && literal(t)[4] == 101u8,
            Token::Let => literal(t).len() == 3 && literal(t)[0] == 108u8 && literal(t)[1] == 101u8
                && literal(t)[2] == 116u8,
            Token::Mod => literal(t).len() == 3 && literal(t)[0] == 109u8 && literal(t)[1] == 111u8
                && literal(t)[2] == 100u8,
            Token::And => literal(t).len() == 3 && literal(t)[0] == 97u8 && literal(t)[1] == 110u8
                && literal(t)[2] == 100u8,
            Token::Or => literal(t).len() == 2 && literal(t)[0] == 111u8 && literal(t)[1] == 114u8,
            Token::XOr => literal(t).len() == 3 && literal(t)[0] == 120u8 && literal(t)[1] == 111u8
                && literal(t)[2] == 114u8,
            Token::True => literal(t).len() == 4 && literal(t)[0] == 116u8 && literal(t)[1] == 114u8
                && literal(t)[2] == 117u8 && literal(t)[3] == 101u8,
            Token::False => literal(t).len() == 5 && literal(t)[0] == 102u8 && literal(t)[1] == 97u8
                && literal(t)[2] == 108u8 && literal(t)[3] == 115u8 && literal(t)[4] == 101u8,
            Token::Comma => literal(t).len() == 1 && literal(t)[0] == 44u8,
            Token::BracketOpen => literal(t).len() == 1 && literal(t)[0] == 40u8,
            Token::BracketClose => literal(t).len() == 1 && literal(t)[0] == 41u8,
            Token::Assign => literal(t).len() == 1 && literal(t)[0] == 61u8,
            Token::AddAssign => literal(t).len() == 2 && literal(t)[0] == 43u8 && literal(t)[1] == 61u8,
            Token::SubAssign => literal(t).len() == 2 && literal(t)[0] == 45u8 && literal(t)[1] == 61u8,
            Token::Add => literal(t).len() == 1 && literal(t)[0] == 43u8,
            Token::Sub => literal(t).len() == 1 && literal(t)[0] == 45u8,
            Token::Mul => literal(t).len() == 1 && literal(t)[0] == 42u8,
            Token::Div => literal(t).len() == 1 && literal(t)[0] == 47u8,
            Token::Eq => literal(t).len() == 2 && literal(t)[0] == 61u8 && literal(t)[1] == 61u8,
            Token::Ne => literal(t).len() == 2 && literal(t)[0] == 33u8 && literal(t)[1] == 61u8,
            Token::Lt => literal(t).len() == 1 && literal(t)[0] == 60u8,
            Token::Le => literal(t).len() == 2 && literal(t)[0] == 60u8 && literal(t)[1] == 61u8,
            Token::Gt => literal(t).len() == 1 && literal(t)[0] == 62u8,
            Token::Ge => literal(t).len() == 2 && literal(t)[0] == 62u8 && literal(t)[1] == 61u8,
            _ => literal(t).len() == 0,
        },
{
}

/// Two fixed texts are equal only for the same token.
proof fn lemma_literal_injective(t1: Token, t2: Token)
    requires
        !is_regex_token(t1),
        !is_regex_token(t2),
        is_pattern_token_spec(t1),
        is_pattern_token_spec(t2),
        literal(t1) == literal(t2),
    ensures
        t1 == t2,
{
    lemma_literal_shape(t1);
    lemma_literal_shape(t2);
}

/// The token that matches a slice is unique, once a fixed text is preferred to a pattern.
proof fn lemma_matching_token_unique(w: Seq<u8>, t1: Token, t2: Token)
    requires
        token_matches(t1, w),
        token_matches(t2, w),
        is_regex_token(t1) ==> forall|t: Token| !is_regex_token(t) ==> !#[trigger] token_matches(t, w),
        is_regex_token(t2) ==> forall|t: Token| !is_regex_token(t) ==> !#[trigger] token_matches(t, w),
    ensures
        t1 == t2,
{
    if is_regex_token(t1) && is_regex_token(t2) {
        assert(w.len() > 0);
        let b = w[0];
        assert(token_matches(t1, w) && token_matches(t2, w));
    } else if !is_regex_token(t1) && !is_regex_token(t2) {
        lemma_literal_injective(t1, t2);
    }
}

/// Scanning is deterministic: from a position, one token and one slice are found.
pub proof fn lemma_scanned_unique(
    s: Seq<u8>,
    pos: int,
    t1: Token,
    a1: int,
    b1: int,
    t2: Token,
    a2: int,
    b2: int,
)
    requires
        scanned(s, pos, t1, a1, b1),
        scanned(s, pos, t2, a2, b2),
    ensures
        t1 == t2,
        a1 == a2,
        b1 == b2,
{
    if a1 < a2 {
        assert(s[a1] == 32u8);
    }
    if a2 < a1 {
        assert(s[a2] == 32u8);
    }
    if a1 < s.len() {
        if no_match(s, a1) {
            if b1 < b2 {
                assert(is_continuation_byte(s[b1]));
            }
            if b2 < b1 {
                assert(is_continuation_byte(s[b2]));
            }
        } else {
            if b1 < b2 {
                assert(token_matches(t2, s.subrange(a1, b2)));
            }
            if b2 < b1 {
                assert(token_matches(t1, s.subrange(a1, b1)));
            }
            lemma_matching_token_unique(s.subrange(a1, b1), t1, t2);
        }
    }
}

/// The token found when scanning `s` from `pos`, with the slice it covers.
pub open spec fn scan_at(s: Seq<u8>, pos: int) -> (Token, int, int) {
    choose|r: (Token, int, int)| scanned(s, pos, r.0, r.1, r.2)
}

/// What was scanned from a position is what `scan_at` names.
pub proof fn lemma_scan_at(s: Seq<u8>, pos: int, t: Token, a: int, b: int)
    requires
        scanned(s, pos, t, a, b),
    ensures
        scan_at(s, pos) == (t, a, b),
{
    let w = (t, a, b);
    assert(scanned(s, pos, w.0, w.1, w.2));
    let r = scan_at(s, pos);
    assert(scanned(s, pos, r.0, r.1, r.2));
    lemma_scanned_unique(s, pos, t, a, b, r.0, r.1, r.2);
}

pub open spec fn is_pattern_token_spec(t: Token) -> bool {
    !(t is Invalid) && !(t is EndOfFile)
}

} // verus!

verus! {

/// Whether no token starts with this byte.
pub open spec fn starts_no_token(b: u8) -> bool {
    !is_ident_byte(b) && !is_digit_byte(b) && b != 10u8 && b != 44u8 && b != 40u8 && b != 41u8
        && b != 61u8 && b != 43u8 && b != 45u8 && b != 42u8 && b != 47u8 && b != 33u8 && b != 60u8
        && b != 62u8
}

/// The slices longer than `end - start` that start with `s[start]` and hold `s[end]` at
/// `end` match no token, given what the two bytes rule out.
proof fn lemma_no_longer_match(s: Seq<u8>, start: int, end: int)
    requires
        0 <= start < end < s.len(),
        is_ident_byte(s[start]) ==> !is_ident_byte(s[end]) && forall|k: int| start <= k < end ==> is_ident_byte(#[trigger] s[k]),
        is_digit_byte(s[start]) ==> !is_digit_byte(s[end]),
        s[start] == 10u8 ==> s[end] != 32u8,
        !is_ident_byte(s[start]) && !is_digit_byte(s[start]) && s[start] != 10u8 ==> end - start <= 2,
        !is_ident_byte(s[start]) && end - start == 1 ==> s[start] == 44u8 || s[start] == 40u8 || s[start] == 41u8 || s[start] == 42u8 || s[start] == 47u8 || s[end] != 61u8 || is_digit_byte(s[start]) || s[start] == 10u8,
    ensures
        forall|e: int, t: Token|
            end < e <= s.len() ==> !#[trigger] token_matches(t, #[trigger] s.subrange(start, e)),
{
    assert forall|e: int, t: Token| end < e <= s.len() implies !#[trigger] token_matches(
        t,
        #[trigger] s.subrange(start, e),
    ) by {
        let w = s.subrange(start, e);
        lemma_literal_shape(t);
        assert(w[0] == s[start]);
        assert(w[end - start] == s[end]);
        if end - start >= 2 {
            assert(w[1] == s[start + 1]);
        }
        if is_ident_byte(s[start]) && token_matches(t, w) && !is_regex_token(t) {
            assert(forall|k: int| 0 <= k < end - start ==> #[trigger] w[k] == s[start + k]);
            assert(is_ident_byte(w[end - start]));
        }
    }
}

/// The slices that start with `s[start]` match no token when no token starts with that byte.
proof fn lemma_no_match_first_byte(s: Seq<u8>, start: int)
    requires
        0 <= start < s.len(),
        starts_no_token(s[start]),
    ensures
        no_match(s, start),
{
    assert forall|e: int, t: Token| start < e <= s.len() implies !#[trigger] token_matches(
        t,
        #[trigger] s.subrange(start, e),
    ) by {
        let w = s.subrange(start, e);
        lemma_literal_shape(t);
        assert(w[0] == s[start]);
    }
}

/// Finds the next token, skipping the spaces from `pos`.
#[verifier::spinoff_prover]
pub fn scan_token(s: &[u8], pos: usize) -> (r: (Token, usize, usize))
    requires
        pos <= s@.len(),
        s@.len() <= usize::MAX,
    ensures
        scanned(s@, pos as int, r.0, r.1 as int, r.2 as int),
{
    let start = space_run_end(s, pos);
    if start == s.len() {
        return (Token::EndOfFile, start, start);
    }
    let b = s[start];
    let ghost ss = s@;
    if (97u8 <= b && b <= 122u8) || (65u8 <= b && b <= 90u8) || b == 95u8 {
        let end = ident_run_end(s, start);
        let kw = keyword(s, start, end);
        let tok = match kw {
            Some(t) => t,
            None => Token::Identifier,
        };
        proof {
            let w = ss.subrange(start as int, end as int);
            if end < ss.len() {
                lemma_no_longer_match(ss, start as int, end as int);
            }
            if tok is Identifier {
                assert forall|k: int| 0 <= k < w.len() implies is_ident_byte(#[trigger] w[k]) by {
                    assert(w[k] == ss[start + k]);
                }
            }
            assert(token_matches(tok, w));
        }
        return (tok, start, end);
    }
    if 48u8 <= b && b <= 57u8 {
        let end = digit_run_end(s, start);
        proof {
            let w = ss.subrange(start as int, end as int);
            if end < ss.len() {
                lemma_no_longer_match(ss, start as int, end as int);
            }
            assert forall|k: int| 0 <= k < w.len() implies is_digit_byte(#[trigger] w[k]) by {
                assert(w[k] == ss[start + k]);
            }
            assert(token_matches(Token::Integer, w));
            assert forall|t: Token| !is_regex_token(t) implies !#[trigger] token_matches(t, w) by {
                lemma_literal_shape(t);
                assert(w[0] == ss[start as int]);
            }
        }
        return (Token::Integer, start, end);
    }
    if b == 10u8 {
        let end = space_run_end(s, start + 1);
        proof {
            let w = ss.subrange(start as int, end as int);
            if end < ss.len() {
                lemma_no_longer_match(ss, start as int, end as int);
            }
            assert forall|k: int| 1 <= k < w.len() implies #[trigger] w[k] == 32u8 by {
                assert(w[k] == ss[start + k]);
            }
            assert forall|t: Token| !is_regex_token(t) implies !#[trigger] token_matches(t, w) by {
                lemma_literal_shape(t);
                assert(w[0] == ss[start as int]);
            }
        }
        return (Token::NewLine, start, end);
    }
    let next_is_eq = start + 1 < s.len() && s[start + 1] == 61u8;
    let (tok, len) = if b == 44u8 {
        (Token::Comma, 1usize)
    } else if b == 40u8 {
        (Token::BracketOpen, 1)
    } else if b == 41u8 {
        (Token::BracketClose, 1)
    } else if b == 42u8 {
        (Token::Mul, 1)
    } else if b == 47u8 {
        (Token::Div, 1)
    } else if b == 61u8 {
        if next_is_eq { (Token::Eq, 2) } else { (Token::Assign, 1) }
    } else if b == 43u8 {
        if next_is_eq { (Token::AddAssign, 2) } else { (Token::Add, 1) }
    } else if b == 45u8 {
        if next_is_eq { (Token::SubAssign, 2) } else { (Token::Sub, 1) }
    } else if b == 60u8 {
        if next_is_eq { (Token::Le, 2) } else { (Token::Lt, 1) }
    } else if b == 62u8 {
        if next_is_eq { (Token::Ge, 2) } else { (Token::Gt, 1) }
    } else if b == 33u8 && next_is_eq {
        (Token::Ne, 2)
    } else {
        (Token::Invalid, 0)
    };
    if tok == Token::Invalid {
        let end = character_end(s, start);
        proof {
            if b == 33u8 {
                assert forall|e: int, t: Token| start < e <= ss.len() implies !#[trigger] token_matches(
                    t,
                    #[trigger] ss.subrange(start as int, e),
                ) by {
                    let w = ss.subrange(start as int, e);
                    lemma_literal_shape(t);
                    assert(w[0] == ss[start as int]);
                    if e > start + 1 {
                        assert(w[1] == ss[start + 1]);
                    }
                }
            } else {
                lemma_no_match_first_byte(ss, start as int);
            }
        }
        return (Token::Invalid, start, end);
    }
    let end = start + len;
    proof {
        let w = ss.subrange(start as int, end as int);
        if end < ss.len() {
            lemma_no_longer_match(ss, start as int, end as int);
        }
        lemma_literal_shape(tok);
        assert(w[0] == ss[start as int]);
        if len == 2 {
            assert(w[1] == ss[start + 1]);
        }
        assert(w =~= literal(tok));
        assert(token_matches(tok, w));
    }
    (tok, start, end)
}

} // verus!
