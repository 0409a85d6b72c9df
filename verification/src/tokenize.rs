//! The tokenizer: a single pass over the source text that hands out one
//! positioned token at a time.
//!
//! Runs of space, tab and carriage return are skipped; `#` starts a
//! comment that runs to the end of its line.  A newline or a comma is a
//! separator token, since actions are newline- or comma-delimited.  The
//! spec function [`token_at`] states, for a text and a position, exactly
//! which token is produced and where scanning resumes; every exec path is
//! verified against it.

use vstd::prelude::*;
use vstd::string::*;

use crate::digits::{is_digit, is_numeral, numeral_value, parse_u32};
use crate::err::{ErrType, ParseErr};

verus! {

pub type TokenRes<'a> = Result<Token<'a>, ParseErr>;

/// What kind of source item a token is.
#[derive(Debug, Clone, Copy, PartialEq, Eq, Structural)]
pub enum TokenType {
    Sep,
    Time,
    Ident,
    Dollar,
    Number,
    Colon,
    Slash,
    Minus,
    Equals,
    SquareOpen,
    SquareClose,
    Tag,
    ClearTag,
    EOF,
}

/// One token: a slice of the source text, the position of its first
/// character, and its kind.
#[derive(Debug)]
pub struct Token<'a> {
    pub s: &'a str,
    pub line: usize,
    pub col: usize,
    pub tt: TokenType,
}

/// Space characters skipped between tokens.  The newline is not among
/// them: it separates actions and is a token of its own.
pub open spec fn is_ws(c: char) -> bool {
    c == ' ' || c == '\t' || c == '\r'
}

/// What `char::is_alphabetic` returns beyond ASCII; it depends on the
/// character alone.
pub uninterp spec fn alphabetic_ext(c: char) -> bool;

/// Whether a character is alphabetic, as `char::is_alphabetic` decides
/// it.  On ASCII these are exactly the two letter ranges, as that
/// function's documentation states; beyond ASCII the result is named by
/// [`alphabetic_ext`].
pub open spec fn alphabetic(c: char) -> bool {
    if (c as int) < 128 {
        ('a' <= c && c <= 'z') || ('A' <= c && c <= 'Z')
    } else {
        alphabetic_ext(c)
    }
}

/// Relies on `char::is_alphabetic`: ASCII letters are the ranges
/// `a..=z` and `A..=Z`; for other characters the result is a function of
/// the character alone, named by `alphabetic_ext`.
#[verifier::external_body]
fn alphabetic_char(c: char) -> (r: bool)
    ensures
        r == alphabetic(c),
        (c as int) >= 128 ==> r == alphabetic_ext(c),
{
    c.is_alphabetic()
}

/// A character that may continue an identifier.
pub open spec fn is_ident_char(c: char) -> bool {
    alphabetic(c) || is_digit(c) || c == '_'
}

/// The 1-based line on which the character at index `i` stands.
pub open spec fn line_of(s: Seq<char>, i: int) -> int
    decreases i,
{
    if i <= 0 {
        1
    } else if s[i - 1] == '\n' {
        line_of(s, i - 1) + 1
    } else {
        line_of(s, i - 1)
    }
}

/// The 1-based column of the character at index `i` within its line.
pub open spec fn col_of(s: Seq<char>, i: int) -> int
    decreases i,
{
    if i <= 0 {
        1
    } else if s[i - 1] == '\n' {
        1
    } else {
        col_of(s, i - 1) + 1
    }
}

/// The first index at or after `i` whose character is not skippable
/// whitespace.
pub open spec fn skip_ws(s: Seq<char>, i: int) -> int
    decreases s.len() - i when 0 <= i <= s.len()
{
    if i < s.len() && is_ws(s[i]) {
        skip_ws(s, i + 1)
    } else {
        i
    }
}

/// The first index at or after `i` holding a newline, or the text's end.
pub open spec fn scan_comment(s: Seq<char>, i: int) -> int
    decreases s.len() - i when 0 <= i <= s.len()
{
    if i < s.len() && s[i] != '\n' {
        scan_comment(s, i + 1)
    } else {
        i
    }
}

/// The end of the run of digits starting at `i`.
pub open spec fn scan_digits(s: Seq<char>, i: int) -> int
    decreases s.len() - i when 0 <= i <= s.len()
{
    if i < s.len() && is_digit(s[i]) {
        scan_digits(s, i + 1)
    } else {
        i
    }
}

/// The end of the run of identifier characters starting at `i`.
pub open spec fn scan_ident(s: Seq<char>, i: int) -> int
    decreases s.len() - i when 0 <= i <= s.len()
{
    if i < s.len() && is_ident_char(s[i]) {
        scan_ident(s, i + 1)
    } else {
        i
    }
}

/// A token as the specification sees it: its text, the position of its
/// first character, its kind, and the index at which scanning resumes.
pub struct GToken {
    pub text: Seq<char>,
    pub line: int,
    pub col: int,
    pub tt: TokenType,
    pub end: int,
}

/// A source position, for the character-level error.
pub struct GPos {
    pub line: int,
    pub col: int,
}

/// A one-character token taken at index `j`.
pub open spec fn punct_token(s: Seq<char>, j: int, tt: TokenType) -> GToken {
    GToken {
        text: s.subrange(j, j + 1),
        line: line_of(s, j),
        col: col_of(s, j),
        tt,
        end: j + 1,
    }
}

/// An end-of-input token at index `j`; it carries no text and scanning
/// does not move, so asking again keeps returning it.
pub open spec fn eof_token(s: Seq<char>, j: int) -> GToken {
    GToken { text: Seq::empty(), line: line_of(s, j), col: col_of(s, j), tt: TokenType::EOF, end: j }
}

/// The token found at position `pos` of the text, or the position of the
/// unrecognized character.  This is the tokenizer's whole behaviour.
pub open spec fn token_at(s: Seq<char>, pos: int) -> Result<GToken, GPos>
    recommends
        0 <= pos <= s.len(),
{
    let j = skip_ws(s, pos);
    if j >= s.len() {
        Ok(eof_token(s, j))
    } else if s[j] == '\n' || s[j] == ',' {
        Ok(punct_token(s, j, TokenType::Sep))
    } else if s[j] == '#' {
        let k = scan_comment(s, j + 1);
        if k >= s.len() {
            Ok(eof_token(s, k))
        } else {
            Ok(punct_token(s, k, TokenType::Sep))
        }
    } else if s[j] == '_' {
        if j + 1 < s.len() && s[j + 1] == '_' {
            Ok(
                GToken {
                    text: s.subrange(j, j + 2),
                    line: line_of(s, j),
                    col: col_of(s, j),
                    tt: TokenType::ClearTag,
                    end: j + 2,
                },
            )
        } else {
            Ok(punct_token(s, j, TokenType::Tag))
        }
    } else if s[j] == '$' {
        Ok(punct_token(s, j, TokenType::Dollar))
    } else if s[j] == ':' {
        Ok(punct_token(s, j, TokenType::Colon))
    } else if s[j] == '/' {
        Ok(punct_token(s, j, TokenType::Slash))
    } else if s[j] == '[' {
        Ok(punct_token(s, j, TokenType::SquareOpen))
    } else if s[j] == ']' {
        Ok(punct_token(s, j, TokenType::SquareClose))
    } else if s[j] == '-' {
        Ok(punct_token(s, j, TokenType::Minus))
    } else if s[j] == '=' {
        Ok(punct_token(s, j, TokenType::Equals))
    } else if is_digit(s[j]) {
        let k = scan_digits(s, j);
        Ok(
            GToken {
                text: s.subrange(j, k),
                line: line_of(s, j),
                col: col_of(s, j),
                tt: TokenType::Number,
                end: k,
            },
        )
    } else if alphabetic(s[j]) {
        let k = scan_ident(s, j);
        Ok(
            GToken {
                text: s.subrange(j, k),
                line: line_of(s, j),
                col: col_of(s, j),
                tt: TokenType::Ident,
                end: k,
            },
        )
    } else {
        Err(GPos { line: line_of(s, j), col: col_of(s, j) })
    }
}

pub proof fn lemma_skip_ws_bounds(s: Seq<char>, i: int)
    requires
        0 <= i <= s.len(),
    ensures
        i <= skip_ws(s, i) <= s.len(),
    decreases s.len() - i,
{
    if i < s.len() && is_ws(s[i]) {
        lemma_skip_ws_bounds(s, i + 1);
    }
}

pub proof fn lemma_scan_comment_bounds(s: Seq<char>, i: int)
    requires
        0 <= i <= s.len(),
    ensures
        i <= scan_comment(s, i) <= s.len(),
        scan_comment(s, i) < s.len() ==> s[scan_comment(s, i)] == '\n',
    decreases s.len() - i,
{
    if i < s.len() && s[i] != '\n' {
        lemma_scan_comment_bounds(s, i + 1);
    }
}

pub proof fn lemma_scan_digits_bounds(s: Seq<char>, i: int)
    requires
        0 <= i <= s.len(),
    ensures
        i <= scan_digits(s, i) <= s.len(),
        forall|m: int| i <= m < scan_digits(s, i) ==> is_digit(#[trigger] s[m]),
    decreases s.len() - i,
{
    if i < s.len() && is_digit(s[i]) {
        lemma_scan_digits_bounds(s, i + 1);
    }
}

pub proof fn lemma_scan_ident_bounds(s: Seq<char>, i: int)
    requires
        0 <= i <= s.len(),
    ensures
        i <= scan_ident(s, i) <= s.len(),
        forall|m: int| i <= m < scan_ident(s, i) ==> is_ident_char(#[trigger] s[m]),
    decreases s.len() - i,
{
    if i < s.len() && is_ident_char(s[i]) {
        lemma_scan_ident_bounds(s, i + 1);
    }
}

/// Every token ends inside the text, and every token but the
/// end-of-input token covers at least one character.
pub proof fn lemma_token_at_bounds(s: Seq<char>, pos: int)
    requires
        0 <= pos <= s.len(),
    ensures
        match token_at(s, pos) {
            Ok(g) => pos <= g.end <= s.len() && (g.tt != TokenType::EOF ==> pos < g.end),
            Err(_) => true,
        },
{
    lemma_skip_ws_bounds(s, pos);
    let j = skip_ws(s, pos);
    if j < s.len() {
        if s[j] == '#' {
            lemma_scan_comment_bounds(s, j + 1);
        } else if is_digit(s[j]) {
            lemma_scan_digits_bounds(s, j + 1);
        } else if is_ident_char(s[j]) {
            lemma_scan_ident_bounds(s, j + 1);
        }
    }
}

/// The texts of all tokens from `pos` up to the end of input, in order,
/// or the position of the first unrecognized character.
pub open spec fn token_texts(s: Seq<char>, pos: int) -> Result<Seq<Seq<char>>, GPos>
    decreases s.len() - pos when 0 <= pos <= s.len() via token_texts_decreases
{
    match token_at(s, pos) {
        Err(p) => Err(p),
        Ok(g) => {
            if g.tt == TokenType::EOF {
                Ok(Seq::empty())
            } else {
                match token_texts(s, g.end) {
                    Err(p) => Err(p),
                    Ok(rest) => Ok(seq![g.text] + rest),
                }
            }
        },
    }
}

#[via_fn]
proof fn token_texts_decreases(s: Seq<char>, pos: int) {
    if 0 <= pos <= s.len() {
        lemma_token_at_bounds(s, pos);
    }
}

/// The source text from `pos` on, with skippable whitespace and comment
/// bodies removed.
pub open spec fn strip(s: Seq<char>, pos: int) -> Seq<char>
    decreases s.len() - pos when 0 <= pos <= s.len() via strip_decreases
{
    if pos >= s.len() {
        Seq::empty()
    } else if is_ws(s[pos]) {
        strip(s, pos + 1)
    } else if s[pos] == '#' {
        strip(s, scan_comment(s, pos + 1))
    } else {
        seq![s[pos]] + strip(s, pos + 1)
    }
}

#[via_fn]
proof fn strip_decreases(s: Seq<char>, pos: int) {
    if 0 <= pos < s.len() {
        lemma_scan_comment_bounds(s, pos + 1);
    }
}

proof fn lemma_strip_skip_ws(s: Seq<char>, i: int)
    requires
        0 <= i <= s.len(),
    ensures
        strip(s, skip_ws(s, i)) == strip(s, i),
    decreases s.len() - i,
{
    if i < s.len() && is_ws(s[i]) {
        lemma_strip_skip_ws(s, i + 1);
    }
}

/// Over a run of characters that are neither whitespace nor a comment
/// start, stripping keeps every character.
proof fn lemma_strip_run(s: Seq<char>, j: int, k: int)
    requires
        0 <= j <= k <= s.len(),
        forall|m: int| j <= m < k ==> !is_ws(#[trigger] s[m]) && s[m] != '#',
    ensures
        strip(s, j) == s.subrange(j, k) + strip(s, k),
    decreases k - j,
{
    if j < k {
        lemma_strip_run(s, j + 1, k);
        assert(s.subrange(j, k) =~= seq![s[j]] + s.subrange(j + 1, k));
        assert(seq![s[j]] + (s.subrange(j + 1, k) + strip(s, k)) =~= (seq![s[j]] + s.subrange(
            j + 1,
            k,
        )) + strip(s, k));
    } else {
        assert(s.subrange(j, j) + strip(s, j) =~= strip(s, j));
    }
}

proof fn lemma_tokens_reconstruct_from(s: Seq<char>, pos: int)
    requires
        0 <= pos <= s.len(),
        token_texts(s, pos) is Ok,
    ensures
        token_texts(s, pos)->Ok_0.flatten() == strip(s, pos),
    decreases s.len() - pos,
{
    lemma_skip_ws_bounds(s, pos);
    lemma_strip_skip_ws(s, pos);
    lemma_token_at_bounds(s, pos);
    let j = skip_ws(s, pos);
    let g = token_at(s, pos)->Ok_0;
    if g.tt == TokenType::EOF {
        if j < s.len() {
            lemma_scan_comment_bounds(s, j + 1);
            assert(s[j] == '#');
            assert(strip(s, j) == strip(s, scan_comment(s, j + 1)));
        }
        assert(token_texts(s, pos)->Ok_0.flatten() =~= Seq::<char>::empty());
    } else {
        let texts = token_texts(s, pos)->Ok_0;
        let rest = token_texts(s, g.end)->Ok_0;
        lemma_tokens_reconstruct_from(s, g.end);
        assert(texts =~= seq![g.text] + rest);
        assert(texts.first() == g.text);
        assert(texts.drop_first() =~= rest);
        assert(texts.flatten() == g.text + rest.flatten());
        if s[j] == '\n' || s[j] == ',' {
            assert(strip(s, j) == seq![s[j]] + strip(s, j + 1));
            assert(g.text =~= seq![s[j]]);
        } else if s[j] == '#' {
            let k = scan_comment(s, j + 1);
            lemma_scan_comment_bounds(s, j + 1);
            assert(strip(s, j) == strip(s, k));
            assert(k < s.len() && s[k] == '\n');
            assert(strip(s, k) == seq![s[k]] + strip(s, k + 1));
            assert(g.text =~= seq![s[k]]);
        } else if s[j] == '_' && j + 1 < s.len() && s[j + 1] == '_' {
            lemma_strip_run(s, j, j + 2);
        } else if is_digit(s[j]) {
            lemma_scan_digits_bounds(s, j);
            lemma_strip_run(s, j, scan_digits(s, j));
        } else if alphabetic(s[j]) && !(s[j] == '_' || s[j] == '$' || s[j] == ':' || s[j] == '/'
            || s[j] == '[' || s[j] == ']' || s[j] == '-' || s[j] == '=') {
            lemma_scan_ident_bounds(s, j);
            lemma_strip_run(s, j, scan_ident(s, j));
        } else {
            lemma_strip_run(s, j, j + 1);
        }
    }
}

/// Law: tokenizing and re-concatenating every token's text, separators
/// included, rebuilds the source text with whitespace and comments
/// stripped, so no semantic token text is lost.
pub proof fn lemma_tokens_reconstruct(s: Seq<char>)
    requires
        token_texts(s, 0) is Ok,
    ensures
        token_texts(s, 0)->Ok_0.flatten() == strip(s, 0),
{
    lemma_tokens_reconstruct_from(s, 0);
}

/// Two texts hold the same characters.
pub fn str_eq(a: &str, b: &str) -> (r: bool)
    ensures
        r == (a@ == b@),
{
    let la = a.unicode_len();
    let lb = b.unicode_len();
    if la != lb {
        return false;
    }
    let mut i: usize = 0;
    while i < la
        invariant
            i <= la,
            la == a@.len(),
            lb == b@.len(),
            la == lb,
            forall|j: int| 0 <= j < i ==> a@[j] == b@[j],
        decreases la - i,
    {
        if a.get_char(i) != b.get_char(i) {
            return false;
        }
        i = i + 1;
    }
    proof {
        assert(a@ =~= b@);
    }
    true
}

/// Strict lexicographic order on texts, by character code; shared
/// prefixes defer to the next character, and a proper prefix orders
/// first.
pub open spec fn lex_lt(a: Seq<char>, b: Seq<char>) -> bool
    decreases a.len(),
{
    if b.len() == 0 {
        false
    } else if a.len() == 0 {
        true
    } else if a[0] != b[0] {
        (a[0] as int) < (b[0] as int)
    } else {
        lex_lt(a.drop_first(), b.drop_first())
    }
}

/// Whether `a` orders strictly before `b`.
pub fn str_lt(a: &str, b: &str) -> (r: bool)
    ensures
        r == lex_lt(a@, b@),
{
    let la = a.unicode_len();
    let lb = b.unicode_len();
    let mut i: usize = 0;
    proof {
        assert(a@.skip(0) =~= a@);
        assert(b@.skip(0) =~= b@);
    }
    loop
        invariant
            i <= la,
            i <= lb,
            la == a@.len(),
            lb == b@.len(),
            lex_lt(a@, b@) == lex_lt(a@.skip(i as int), b@.skip(i as int)),
        decreases la - i,
    {
        if i >= la || i >= lb {
            return la < lb;
        }
        let ca = a.get_char(i);
        let cb = b.get_char(i);
        if ca != cb {
            proof {
                assert(a@.skip(i as int)[0] == ca);
                assert(b@.skip(i as int)[0] == cb);
            }
            return ca < cb;
        }
        proof {
            assert(a@.skip(i as int)[0] == ca);
            assert(b@.skip(i as int)[0] == cb);
            assert(a@.skip(i as int).drop_first() =~= a@.skip(i as int + 1));
            assert(b@.skip(i as int).drop_first() =~= b@.skip(i as int + 1));
        }
        i = i + 1;
    }
}

/// An exec token agrees with a spec token.
pub open spec fn token_matches(t: Token<'_>, g: GToken) -> bool {
    t.s@ == g.text && t.line == g.line && t.col == g.col && t.tt == g.tt
}

impl<'a> Token<'a> {
    /// A parse error positioned at this token.
    pub fn as_err(&self, etype: ErrType) -> (e: ParseErr)
        ensures
            e.line == self.line,
            e.col == self.col,
            e.etype == etype,
    {
        ParseErr { line: self.line, col: self.col, etype }
    }

    /// The token's text read as a `u32`, or `NotANumber` at the token's
    /// position when it is no numeral or does not fit.
    pub fn num_val(&self) -> (r: Result<u32, ParseErr>)
        ensures
            match r {
                Ok(v) => is_numeral(self.s@) && numeral_value(self.s@) == v,
                Err(e) => {
                    &&& !(is_numeral(self.s@) && numeral_value(self.s@) <= u32::MAX)
                    &&& e == (ParseErr {
                        line: self.line,
                        col: self.col,
                        etype: ErrType::NotANumber,
                    })
                },
            },
    {
        match parse_u32(self.s) {
            Some(v) => Ok(v),
            None => Err(self.as_err(ErrType::NotANumber)),
        }
    }
}

proof fn lemma_line_col_bounds(s: Seq<char>, i: int)
    requires
        0 <= i,
    ensures
        1 <= line_of(s, i) <= i + 1,
        1 <= col_of(s, i) <= i + 1,
    decreases i,
{
    if i > 0 {
        lemma_line_col_bounds(s, i - 1);
    }
}

/// The tokenizer: the source text, the scanning position (a character
/// index), and the line and column of the character at that position.
pub struct Tokenizer<'a> {
    s: &'a str,
    pos: usize,
    line: usize,
    col: usize,
}

impl<'a> Tokenizer<'a> {
    /// The source text.
    pub closed spec fn src(self) -> Seq<char> {
        self.s@
    }

    /// The scanning position, as a character index.
    pub closed spec fn position(self) -> int {
        self.pos as int
    }

    /// The line and column counters agree with the position.
    pub closed spec fn counters_ok(self) -> bool {
        &&& self.line == line_of(self.s@, self.pos as int)
        &&& self.col == col_of(self.s@, self.pos as int)
    }

    /// The position is inside the text and the line and column counters
    /// agree with it.
    pub open spec fn wf(self) -> bool {
        &&& 0 <= self.position() <= self.src().len()
        &&& self.src().len() < usize::MAX
        &&& self.counters_ok()
    }

    pub fn new(s: &'a str) -> (t: Tokenizer<'a>)
        requires
            s@.len() < usize::MAX,
        ensures
            t.wf(),
            t.src() == s@,
            t.position() == 0,
    {
        Tokenizer { s, pos: 0, line: 1, col: 1 }
    }

    /// Moves the position one character forward, keeping the line and
    /// column counters true.
    fn step(&mut self)
        requires
            old(self).wf(),
            old(self).pos < old(self).s@.len(),
        ensures
            final(self).wf(),
            final(self).s == old(self).s,
            final(self).pos == old(self).pos + 1,
    {
        proof {
            lemma_line_col_bounds(self.s@, self.pos as int);
        }
        let c = self.s.get_char(self.pos);
        if c == '\n' {
            self.line = self.line + 1;
            self.col = 1;
        } else {
            self.col = self.col + 1;
        }
        self.pos = self.pos + 1;
    }

    /// Skips the run of space, tab and carriage-return characters at the
    /// position.
    fn whitespace(&mut self)
        requires
            old(self).wf(),
        ensures
            final(self).wf(),
            final(self).s == old(self).s,
            final(self).pos == skip_ws(old(self).s@, old(self).pos as int),
    {
        let ghost s0 = self.s@;
        let ghost p0 = self.pos as int;
        let len = self.s.unicode_len();
        loop
            invariant
                self.wf(),
                self.s@ == s0,
                self.s == old(self).s,
                len == s0.len(),
                0 <= p0 <= self.pos as int,
                skip_ws(s0, p0) == skip_ws(s0, self.pos as int),
            ensures
                self.wf(),
                self.s == old(self).s,
                self.pos as int == skip_ws(s0, p0),
            decreases s0.len() - self.pos,
        {
            if self.pos < len {
                let c = self.s.get_char(self.pos);
                if c == ' ' || c == '\t' || c == '\r' {
                    self.step();
                    continue ;
                }
            }
            break ;
        }
    }

    /// Takes the next `len` characters as one token of kind `tt`,
    /// positioned at the token's first character.
    pub fn make_token(&mut self, len: usize, tt: TokenType) -> (t: Token<'a>)
        requires
            old(self).wf(),
            old(self).position() + len <= old(self).src().len(),
        ensures
            final(self).wf(),
            final(self).src() == old(self).src(),
            final(self).position() == old(self).position() + len,
            t.s@ == old(self).src().subrange(old(self).position(), old(self).position() + len),
            t.line == line_of(old(self).src(), old(self).position()),
            t.col == col_of(old(self).src(), old(self).position()),
            t.tt == tt,
    {
        let text = self.s.substring_char(self.pos, self.pos + len);
        let t = Token { s: text, line: self.line, col: self.col, tt };
        let ghost s0 = self.s@;
        let ghost p0 = self.pos as int;
        let mut k: usize = 0;
        while k < len
            invariant
                self.wf(),
                self.s@ == s0,
                self.s == old(self).s,
                k <= len,
                p0 + len <= s0.len(),
                self.pos as int == p0 + k,
            decreases len - k,
        {
            self.step();
            k = k + 1;
        }
        t
    }

    /// An error at the current position; the tokenizer does not move.
    pub fn make_err(&mut self, etype: ErrType) -> (r: TokenRes<'a>)
        requires
            old(self).wf(),
        ensures
            *final(self) == *old(self),
            final(self).wf(),
            match r {
                Ok(_) => false,
                Err(e) => {
                    &&& e.line == line_of(old(self).src(), old(self).position())
                    &&& e.col == col_of(old(self).src(), old(self).position())
                    &&& e.etype == etype
                },
            },
    {
        Err(ParseErr { line: self.line, col: self.col, etype })
    }


    /// Scans the maximal run of digits at the position into a `Number`
    /// token; the run may be empty.
    pub fn number(&mut self) -> (r: TokenRes<'a>)
        requires
            old(self).wf(),
        ensures
            final(self).wf(),
            final(self).src() == old(self).src(),
            ({
                let j = old(self).position();
                let k = scan_digits(old(self).src(), j);
                match r {
                    Ok(t) => {
                        &&& t.s@ == old(self).src().subrange(j, k)
                        &&& t.line == line_of(old(self).src(), j)
                        &&& t.col == col_of(old(self).src(), j)
                        &&& t.tt == TokenType::Number
                        &&& final(self).position() == k
                    },
                    Err(_) => false,
                }
            }),
    {
        let ghost s0 = self.s@;
        let len = self.s.unicode_len();
        let start = self.pos;
        let mut k: usize = start;
        loop
            invariant
                self.wf(),
                self.s@ == s0,
                self.s == old(self).s,
                len == s0.len(),
                self.pos == start,
                start <= k && k as int <= len as int,
                scan_digits(s0, start as int) == scan_digits(s0, k as int),
            ensures
                self.wf(),
                self.s@ == s0,
                self.s == old(self).s,
                self.pos == start,
                start <= k && k as int <= len as int,
                k as int == scan_digits(s0, start as int),
            decreases s0.len() - k,
        {
            if k < len {
                let c = self.s.get_char(k);
                if c >= '0' && c <= '9' {
                    k = k + 1;
                    continue ;
                }
            }
            break ;
        }
        Ok(self.make_token(k - start, TokenType::Number))
    }

    /// Scans the maximal run of identifier characters at the position
    /// into an `Ident` token; the run may be empty.
    pub fn ident(&mut self) -> (t: Token<'a>)
        requires
            old(self).wf(),
        ensures
            final(self).wf(),
            final(self).src() == old(self).src(),
            ({
                let j = old(self).position();
                let k = scan_ident(old(self).src(), j);
                &&& t.s@ == old(self).src().subrange(j, k)
                &&& t.line == line_of(old(self).src(), j)
                &&& t.col == col_of(old(self).src(), j)
                &&& t.tt == TokenType::Ident
                &&& final(self).position() == k
            }),
    {
        let ghost s0 = self.s@;
        let len = self.s.unicode_len();
        let start = self.pos;
        let mut k: usize = start;
        loop
            invariant
                self.wf(),
                self.s@ == s0,
                self.s == old(self).s,
                len == s0.len(),
                self.pos == start,
                start <= k && k as int <= len as int,
                scan_ident(s0, start as int) == scan_ident(s0, k as int),
            ensures
                self.wf(),
                self.s@ == s0,
                self.s == old(self).s,
                self.pos == start,
                start <= k && k as int <= len as int,
                k as int == scan_ident(s0, start as int),
            decreases s0.len() - k,
        {
            if k < len {
                let c = self.s.get_char(k);
                if (c >= '0' && c <= '9') || c == '_' || alphabetic_char(c) {
                    k = k + 1;
                    continue ;
                }
            }
            break ;
        }
        self.make_token(k - start, TokenType::Ident)
    }

    /// At a `_`: a second `_` makes a clear-tag token of both characters,
    /// anything else makes a tag token of the `_` alone.
    pub fn make_tag(&mut self) -> (r: TokenRes<'a>)
        requires
            old(self).wf(),
            old(self).position() < old(self).src().len(),
        ensures
            final(self).wf(),
            final(self).src() == old(self).src(),
            ({
                let s = old(self).src();
                let j = old(self).position();
                match r {
                    Ok(t) => {
                        &&& t.line == line_of(s, j)
                        &&& t.col == col_of(s, j)
                        &&& if j + 1 < s.len() && s[j + 1] == '_' {
                            &&& t.s@ == s.subrange(j, j + 2)
                            &&& t.tt == TokenType::ClearTag
                            &&& final(self).position() == j + 2
                        } else {
                            &&& t.s@ == s.subrange(j, j + 1)
                            &&& t.tt == TokenType::Tag
                            &&& final(self).position() == j + 1
                        }
                    },
                    Err(_) => false,
                }
            }),
    {
        let len = self.s.unicode_len();
        if self.pos + 1 < len && self.s.get_char(self.pos + 1) == '_' {
            Ok(self.make_token(2, TokenType::ClearTag))
        } else {
            Ok(self.make_token(1, TokenType::Tag))
        }
    }

    /// Produces the next token, as [`token_at`] describes it, advancing
    /// past it; an unrecognized character is reported without moving
    /// past the whitespace already skipped.
    pub fn next_token(&mut self) -> (r: TokenRes<'a>)
        requires
            old(self).wf(),
        ensures
            final(self).wf(),
            final(self).src() == old(self).src(),
            match (r, token_at(old(self).src(), old(self).position())) {
                (Ok(t), Ok(g)) => token_matches(t, g) && final(self).position() == g.end,
                (Err(e), Err(p)) => {
                    &&& e.line == p.line
                    &&& e.col == p.col
                    &&& e.etype == ErrType::NoToken
                    &&& final(self).position() == skip_ws(old(self).src(), old(self).position())
                },
                _ => false,
            },
    {
        self.whitespace();
        let ghost s0 = self.s@;
        let ghost j = self.pos as int;
        let len = self.s.unicode_len();
        if self.pos >= len {
            proof {
                assert(s0.subrange(j, j) =~= Seq::<char>::empty());
            }
            return Ok(self.make_token(0, TokenType::EOF));
        }
        let c = self.s.get_char(self.pos);
        if c == '\n' || c == ',' {
            Ok(self.make_token(1, TokenType::Sep))
        } else if c == '#' {
            loop
                invariant
                    self.wf(),
                    self.s@ == s0,
                    self.s == old(self).s,
                    len == s0.len(),
                    0 <= j <= self.pos as int <= len as int,
                    scan_comment(s0, j) == scan_comment(s0, self.pos as int),
                ensures
                    self.wf(),
                    self.s@ == s0,
                    self.s == old(self).s,
                    self.pos as int == scan_comment(s0, j),
                decreases s0.len() - self.pos,
            {
                if self.pos < len {
                    let c2 = self.s.get_char(self.pos);
                    if c2 != '\n' {
                        self.step();
                        continue ;
                    }
                }
                break ;
            }
            if self.pos >= len {
                proof {
                    assert(s0.subrange(self.pos as int, self.pos as int) =~= Seq::<char>::empty());
                }
                Ok(self.make_token(0, TokenType::EOF))
            } else {
                Ok(self.make_token(1, TokenType::Sep))
            }
        } else if c == '_' {
            self.make_tag()
        } else if c == '$' {
            Ok(self.make_token(1, TokenType::Dollar))
        } else if c == ':' {
            Ok(self.make_token(1, TokenType::Colon))
        } else if c == '/' {
            Ok(self.make_token(1, TokenType::Slash))
        } else if c == '[' {
            Ok(self.make_token(1, TokenType::SquareOpen))
        } else if c == ']' {
            Ok(self.make_token(1, TokenType::SquareClose))
        } else if c == '-' {
            Ok(self.make_token(1, TokenType::Minus))
        } else if c == '=' {
            Ok(self.make_token(1, TokenType::Equals))
        } else if c >= '0' && c <= '9' {
            self.number()
        } else if alphabetic_char(c) {
            Ok(self.ident())
        } else {
            self.make_err(ErrType::NoToken)
        }
    }
}

} // verus!
