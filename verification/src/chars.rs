//! Character classification and text scanning.
//!
//! The language's identifiers and whitespace are defined by Unicode
//! character classes, so the two classifiers of `std` are wrapped here and
//! given spec-level names; everything else in this module is verified
//! scanning code used by the parser and the text processors.

use vstd::prelude::*;

verus! {

/// What `char::is_alphanumeric` returns; the result depends on the
/// character alone.
pub uninterp spec fn alnum(c: char) -> bool;

/// What `char::is_whitespace` returns; the result depends on the
/// character alone.
pub uninterp spec fn white(c: char) -> bool;

/// Relies on `char::is_alphanumeric`: whether the character is in one of
/// the Unicode letter or number categories.
#[verifier::external_body]
pub fn is_alnum(c: char) -> (r: bool)
    ensures
        r == alnum(c),
{
    c.is_alphanumeric()
}

/// Relies on `char::is_whitespace`: whether the character has the Unicode
/// `White_Space` property.
#[verifier::external_body]
pub fn is_white(c: char) -> (r: bool)
    ensures
        r == white(c),
{
    c.is_whitespace()
}

/// End of the run of alphanumeric characters starting at `pos`.
pub open spec fn ident_end(s: Seq<char>, pos: int) -> int
    decreases s.len() - pos
        when 0 <= pos <= s.len()
{
    if pos == s.len() || !alnum(s[pos]) {
        pos
    } else {
        ident_end(s, pos + 1)
    }
}

pub proof fn lemma_ident_end(s: Seq<char>, pos: int)
    requires
        0 <= pos <= s.len(),
    ensures
        pos <= ident_end(s, pos) <= s.len(),
        forall|i: int| pos <= i < ident_end(s, pos) ==> alnum(s[i]),
        ident_end(s, pos) < s.len() ==> !alnum(s[ident_end(s, pos)]),
    decreases s.len() - pos,
{
    if pos == s.len() || !alnum(s[pos]) {
    } else {
        lemma_ident_end(s, pos + 1);
    }
}

/// End of the run of whitespace characters starting at `pos`.
pub open spec fn ws_end(s: Seq<char>, pos: int) -> int
    decreases s.len() - pos
        when 0 <= pos <= s.len()
{
    if pos == s.len() || !white(s[pos]) {
        pos
    } else {
        ws_end(s, pos + 1)
    }
}

pub proof fn lemma_ws_end(s: Seq<char>, pos: int)
    requires
        0 <= pos <= s.len(),
    ensures
        pos <= ws_end(s, pos) <= s.len(),
        forall|i: int| pos <= i < ws_end(s, pos) ==> white(s[i]),
        ws_end(s, pos) < s.len() ==> !white(s[ws_end(s, pos)]),
    decreases s.len() - pos,
{
    if pos == s.len() || !white(s[pos]) {
    } else {
        lemma_ws_end(s, pos + 1);
    }
}

/// End of the run of non-whitespace characters (a word) starting at `pos`.
pub open spec fn word_end(s: Seq<char>, pos: int) -> int
    decreases s.len() - pos
        when 0 <= pos <= s.len()
{
    if pos == s.len() || white(s[pos]) {
        pos
    } else {
        word_end(s, pos + 1)
    }
}

pub proof fn lemma_word_end(s: Seq<char>, pos: int)
    requires
        0 <= pos <= s.len(),
    ensures
        pos <= word_end(s, pos) <= s.len(),
        forall|i: int| pos <= i < word_end(s, pos) ==> !white(s[i]),
        word_end(s, pos) < s.len() ==> white(s[word_end(s, pos)]),
    decreases s.len() - pos,
{
    if pos == s.len() || white(s[pos]) {
    } else {
        lemma_word_end(s, pos + 1);
    }
}

/// End of the run of whitespace characters other than a newline.
pub open spec fn nnws_end(s: Seq<char>, pos: int) -> int
    decreases s.len() - pos
        when 0 <= pos <= s.len()
{
    if pos == s.len() || !white(s[pos]) || s[pos] == '\n' {
        pos
    } else {
        nnws_end(s, pos + 1)
    }
}

pub proof fn lemma_nnws_end(s: Seq<char>, pos: int)
    requires
        0 <= pos <= s.len(),
    ensures
        pos <= nnws_end(s, pos) <= s.len(),
    decreases s.len() - pos,
{
    if pos == s.len() || !white(s[pos]) || s[pos] == '\n' {
    } else {
        lemma_nnws_end(s, pos + 1);
    }
}

/// End of the run of newline characters starting at `pos`.
pub open spec fn nl_end(s: Seq<char>, pos: int) -> int
    decreases s.len() - pos
        when 0 <= pos <= s.len()
{
    if pos == s.len() || s[pos] != '\n' {
        pos
    } else {
        nl_end(s, pos + 1)
    }
}

pub proof fn lemma_nl_end(s: Seq<char>, pos: int)
    requires
        0 <= pos <= s.len(),
    ensures
        pos <= nl_end(s, pos) <= s.len(),
    decreases s.len() - pos,
{
    if pos == s.len() || s[pos] != '\n' {
    } else {
        lemma_nl_end(s, pos + 1);
    }
}

/// Start of the run of whitespace characters that ends at `pos`.
pub open spec fn ws_rev(s: Seq<char>, pos: int) -> int
    decreases pos
        when 0 <= pos <= s.len()
{
    if pos == 0 || !white(s[pos - 1]) {
        pos
    } else {
        ws_rev(s, pos - 1)
    }
}

pub proof fn lemma_ws_rev(s: Seq<char>, pos: int)
    requires
        0 <= pos <= s.len(),
    ensures
        0 <= ws_rev(s, pos) <= pos,
        forall|i: int| ws_rev(s, pos) <= i < pos ==> white(s[i]),
        ws_rev(s, pos) > 0 ==> !white(s[ws_rev(s, pos) - 1]),
    decreases pos,
{
    if pos == 0 || !white(s[pos - 1]) {
    } else {
        lemma_ws_rev(s, pos - 1);
    }
}

/// End of the run of characters other than a comma starting at `pos`.
pub open spec fn comma_end(s: Seq<char>, pos: int) -> int
    decreases s.len() - pos
        when 0 <= pos <= s.len()
{
    if pos == s.len() || s[pos] == ',' {
        pos
    } else {
        comma_end(s, pos + 1)
    }
}

/// End of a run of raw text: stops at a command sigil, a closing content
/// brace, or a comment sigil.
pub open spec fn raw_stop(c: char) -> bool {
    c == '\\' || c == '}' || c == '%'
}

pub open spec fn raw_end(s: Seq<char>, pos: int) -> int
    decreases s.len() - pos
        when 0 <= pos <= s.len()
{
    if pos == s.len() || raw_stop(s[pos]) {
        pos
    } else {
        raw_end(s, pos + 1)
    }
}

pub proof fn lemma_raw_end(s: Seq<char>, pos: int)
    requires
        0 <= pos <= s.len(),
    ensures
        pos <= raw_end(s, pos) <= s.len(),
    decreases s.len() - pos,
{
    if pos == s.len() || raw_stop(s[pos]) {
    } else {
        lemma_raw_end(s, pos + 1);
    }
}

/// End of a comment: the next newline, or the end of the text.
pub open spec fn comment_end(s: Seq<char>, pos: int) -> int
    decreases s.len() - pos
        when 0 <= pos <= s.len()
{
    if pos == s.len() || s[pos] == '\n' {
        pos
    } else {
        comment_end(s, pos + 1)
    }
}

pub proof fn lemma_comment_end(s: Seq<char>, pos: int)
    requires
        0 <= pos <= s.len(),
    ensures
        pos <= comment_end(s, pos) <= s.len(),
    decreases s.len() - pos,
{
    if pos == s.len() || s[pos] == '\n' {
    } else {
        lemma_comment_end(s, pos + 1);
    }
}

/// End of a bare parameter value: stops at whitespace, a parameter
/// separator, a closing parameter bracket, or a closing content brace.
pub open spec fn bareword_stop(c: char) -> bool {
    white(c) || c == ',' || c == ']' || c == '}'
}

pub open spec fn bareword_end(s: Seq<char>, pos: int) -> int
    decreases s.len() - pos
        when 0 <= pos <= s.len()
{
    if pos == s.len() || bareword_stop(s[pos]) {
        pos
    } else {
        bareword_end(s, pos + 1)
    }
}

/// Scans to the end of the alphanumeric run starting at `pos`.
pub fn scan_ident_end(s: &str, n: usize, pos: usize) -> (r: usize)
    requires
        pos <= n,
        n == s@.len(),
    ensures
        r == ident_end(s@, pos as int),
        pos <= r <= n,
{
    let mut i = pos;
    loop
        invariant
            pos <= i <= n,
            n == s@.len(),
            ident_end(s@, pos as int) == ident_end(s@, i as int),
        ensures
            i == ident_end(s@, pos as int),
        decreases n - i,
    {
        if i == n {
            break;
        }
        if !is_alnum(s.get_char(i)) {
            break;
        }
        i = i + 1;
    }
    i
}

/// Scans to the end of the whitespace run starting at `pos`.
pub fn scan_ws_end(s: &str, n: usize, pos: usize) -> (r: usize)
    requires
        pos <= n,
        n == s@.len(),
    ensures
        r == ws_end(s@, pos as int),
        pos <= r <= n,
{
    let mut i = pos;
    loop
        invariant
            pos <= i <= n,
            n == s@.len(),
            ws_end(s@, pos as int) == ws_end(s@, i as int),
        ensures
            i == ws_end(s@, pos as int),
        decreases n - i,
    {
        if i == n {
            break;
        }
        if !is_white(s.get_char(i)) {
            break;
        }
        i = i + 1;
    }
    i
}

/// Scans to the end of the non-whitespace run starting at `pos`.
pub fn scan_word_end(s: &str, n: usize, pos: usize) -> (r: usize)
    requires
        pos <= n,
        n == s@.len(),
    ensures
        r == word_end(s@, pos as int),
        pos <= r <= n,
{
    let mut i = pos;
    loop
        invariant
            pos <= i <= n,
            n == s@.len(),
            word_end(s@, pos as int) == word_end(s@, i as int),
        ensures
            i == word_end(s@, pos as int),
        decreases n - i,
    {
        if i == n {
            break;
        }
        if is_white(s.get_char(i)) {
            break;
        }
        i = i + 1;
    }
    i
}

/// Scans to the end of the run of non-newline whitespace starting at `pos`.
pub fn scan_nnws_end(s: &str, n: usize, pos: usize) -> (r: usize)
    requires
        pos <= n,
        n == s@.len(),
    ensures
        r == nnws_end(s@, pos as int),
        pos <= r <= n,
{
    let mut i = pos;
    loop
        invariant
            pos <= i <= n,
            n == s@.len(),
            nnws_end(s@, pos as int) == nnws_end(s@, i as int),
        ensures
            i == nnws_end(s@, pos as int),
        decreases n - i,
    {
        if i == n {
            break;
        }
        let c = s.get_char(i);
        if !is_white(c) || c == '\n' {
            break;
        }
        i = i + 1;
    }
    i
}

/// Scans to the end of the newline run starting at `pos`.
pub fn scan_nl_end(s: &str, n: usize, pos: usize) -> (r: usize)
    requires
        pos <= n,
        n == s@.len(),
    ensures
        r == nl_end(s@, pos as int),
        pos <= r <= n,
{
    let mut i = pos;
    loop
        invariant
            pos <= i <= n,
            n == s@.len(),
            nl_end(s@, pos as int) == nl_end(s@, i as int),
        ensures
            i == nl_end(s@, pos as int),
        decreases n - i,
    {
        if i == n {
            break;
        }
        if s.get_char(i) != '\n' {
            break;
        }
        i = i + 1;
    }
    i
}

/// Scans backward to the start of the whitespace run ending at `pos`.
pub fn scan_ws_rev(s: &str, n: usize, pos: usize) -> (r: usize)
    requires
        pos <= n,
        n == s@.len(),
    ensures
        r == ws_rev(s@, pos as int),
        r <= pos,
{
    let mut i = pos;
    loop
        invariant
            0 <= i <= pos,
            pos <= n,
            n == s@.len(),
            ws_rev(s@, pos as int) == ws_rev(s@, i as int),
        ensures
            i == ws_rev(s@, pos as int),
        decreases i,
    {
        if i == 0 {
            break;
        }
        if !is_white(s.get_char(i - 1)) {
            break;
        }
        i = i - 1;
    }
    i
}

/// Scans to the end of the raw-text run starting at `pos`.
pub fn scan_raw_end(s: &str, n: usize, pos: usize) -> (r: usize)
    requires
        pos <= n,
        n == s@.len(),
    ensures
        r == raw_end(s@, pos as int),
        pos <= r <= n,
{
    let mut i = pos;
    loop
        invariant
            pos <= i <= n,
            n == s@.len(),
            raw_end(s@, pos as int) == raw_end(s@, i as int),
        ensures
            i == raw_end(s@, pos as int),
        decreases n - i,
    {
        if i == n {
            break;
        }
        let c = s.get_char(i);
        if c == '\\' || c == '}' || c == '%' {
            break;
        }
        i = i + 1;
    }
    i
}

/// Scans to the end of the comment starting at `pos`.
pub fn scan_comment_end(s: &str, n: usize, pos: usize) -> (r: usize)
    requires
        pos <= n,
        n == s@.len(),
    ensures
        r == comment_end(s@, pos as int),
        pos <= r <= n,
{
    let mut i = pos;
    loop
        invariant
            pos <= i <= n,
            n == s@.len(),
            comment_end(s@, pos as int) == comment_end(s@, i as int),
        ensures
            i == comment_end(s@, pos as int),
        decreases n - i,
    {
        if i == n {
            break;
        }
        if s.get_char(i) == '\n' {
            break;
        }
        i = i + 1;
    }
    i
}

/// Scans to the end of the bare parameter value starting at `pos`.
pub fn scan_bareword_end(s: &str, n: usize, pos: usize) -> (r: usize)
    requires
        pos <= n,
        n == s@.len(),
    ensures
        r == bareword_end(s@, pos as int),
        pos <= r <= n,
{
    let mut i = pos;
    loop
        invariant
            pos <= i <= n,
            n == s@.len(),
            bareword_end(s@, pos as int) == bareword_end(s@, i as int),
        ensures
            i == bareword_end(s@, pos as int),
        decreases n - i,
    {
        if i == n {
            break;
        }
        let c = s.get_char(i);
        if is_white(c) || c == ',' || c == ']' || c == '}' {
            break;
        }
        i = i + 1;
    }
    i
}

/// Scans to the next comma at or after `pos`.
pub fn scan_comma_end(s: &str, n: usize, pos: usize) -> (r: usize)
    requires
        pos <= n,
        n == s@.len(),
    ensures
        r == comma_end(s@, pos as int),
        pos <= r <= n,
{
    let mut i = pos;
    loop
        invariant
            pos <= i <= n,
            n == s@.len(),
            comma_end(s@, pos as int) == comma_end(s@, i as int),
        ensures
            i == comma_end(s@, pos as int),
        decreases n - i,
    {
        if i == n {
            break;
        }
        if s.get_char(i) == ',' {
            break;
        }
        i = i + 1;
    }
    i
}

/// Whether two text slices hold the same characters.
pub fn str_eq(a: &str, b: &str) -> (r: bool)
    ensures
        r == (a@ == b@),
{
    let na = a.unicode_len();
    let nb = b.unicode_len();
    if na != nb {
        return false;
    }
    let mut i: usize = 0;
    while i < na
        invariant
            i <= na,
            na == a@.len(),
            nb == b@.len(),
            na == nb,
            forall|j: int| 0 <= j < i ==> a@[j] == b@[j],
        decreases na - i,
    {
        if a.get_char(i) != b.get_char(i) {
            return false;
        }
        i = i + 1;
    }
    proof {
        assert(a@ =~= b@);
    }
    true
}

} // verus!
