//! The action parser: recursive descent over the token stream with one
//! token of pushback.
//!
//! [`next_action_at`] states, for a text and a position, exactly which
//! action is parsed next, where parsing resumes, and which error is
//! reported otherwise; `Parser::next_action` is verified against it.

use vstd::prelude::*;
use vstd::string::*;

use crate::digits::{is_numeral, numeral_value};
use crate::err::{ErrType, ParseErr};
use crate::moment::STime;
use crate::tokenize::{
    skip_ws, str_eq, token_at, token_matches, GPos, GToken, Token, TokenRes, TokenType,
    Tokenizer, lemma_token_at_bounds,
};

verus! {

pub type ActionRes<'a> = Result<Action<'a>, ParseErr>;

/// One parsed action, positioned at the token that led it for error
/// reporting.
#[derive(Debug, PartialEq)]
pub struct Action<'a> {
    pub line: usize,
    pub col: usize,
    pub ad: ActionData<'a>,
}

/// What an action does.  Identifier payloads borrow the source text;
/// group names and members are owned.
#[derive(Debug, PartialEq)]
pub enum ActionData<'a> {
    Group(String, Vec<String>),
    ShortDate(u32, u32),
    LongDate(u32, u32, i32),
    SetJob(&'a str),
    SetYear(i32),
    ClearTags,
    ClearTag(&'a str),
    Tag(&'a str),
    Clockin(STime),
    Clockout(STime),
    End,
}

/// An action as the specification sees it: text payloads as character
/// sequences, numbers as unbounded integers.
#[verifier::ext_equal]
pub struct GAction {
    pub line: int,
    pub col: int,
    pub ad: GActionData,
}

#[verifier::ext_equal]
pub enum GActionData {
    Group(Seq<char>, Seq<Seq<char>>),
    ShortDate(int, int),
    LongDate(int, int, int),
    SetJob(Seq<char>),
    SetYear(int),
    ClearTags,
    ClearTag(Seq<char>),
    Tag(Seq<char>),
    Clockin(int),
    Clockout(int),
    End,
}

/// A parse error as the specification sees it.
pub struct GParseErr {
    pub line: int,
    pub col: int,
    pub etype: ErrType,
}

/// An exec error agrees with a spec error.
pub open spec fn perr_matches(e: ParseErr, g: GParseErr) -> bool {
    e.line == g.line && e.col == g.col && e.etype == g.etype
}

impl View for ActionData<'_> {
    type V = GActionData;

    open spec fn view(&self) -> GActionData {
        match self {
            ActionData::Group(name, members) => GActionData::Group(name@, members.deep_view()),
            ActionData::ShortDate(d, m) => GActionData::ShortDate(*d as int, *m as int),
            ActionData::LongDate(d, m, y) => GActionData::LongDate(
                *d as int,
                *m as int,
                *y as int,
            ),
            ActionData::SetJob(j) => GActionData::SetJob(j@),
            ActionData::SetYear(y) => GActionData::SetYear(*y as int),
            ActionData::ClearTags => GActionData::ClearTags,
            ActionData::ClearTag(t) => GActionData::ClearTag(t@),
            ActionData::Tag(t) => GActionData::Tag(t@),
            ActionData::Clockin(t) => GActionData::Clockin(t@),
            ActionData::Clockout(t) => GActionData::Clockout(t@),
            ActionData::End => GActionData::End,
        }
    }
}

impl View for Action<'_> {
    type V = GAction;

    open spec fn view(&self) -> GAction {
        GAction { line: self.line as int, col: self.col as int, ad: self.ad@ }
    }
}

impl<'a> Action<'a> {
    /// A parse error positioned at this action.
    pub fn as_err(&self, etype: ErrType) -> (e: ParseErr)
        ensures
            e.line == self.line,
            e.col == self.col,
            e.etype == etype,
    {
        ParseErr { line: self.line, col: self.col, etype }
    }
}

/// The character-level error, as the parser passes it on.
pub open spec fn no_token_err(p: GPos) -> GParseErr {
    GParseErr { line: p.line, col: p.col, etype: ErrType::NoToken }
}

/// An error at a token.
pub open spec fn tok_err(t: GToken, etype: ErrType) -> GParseErr {
    GParseErr { line: t.line, col: t.col, etype }
}

/// The spec view of an exec token, resuming at `end`.
pub open spec fn g_of(t: Token<'_>, end: int) -> GToken {
    GToken { text: t.s@, line: t.line as int, col: t.col as int, tt: t.tt, end }
}

/// A token's text as a number, or `NotANumber` at the token.
pub open spec fn g_num_val(t: GToken) -> Result<int, GParseErr> {
    if is_numeral(t.text) && numeral_value(t.text) <= u32::MAX {
        Ok(numeral_value(t.text))
    } else {
        Err(tok_err(t, ErrType::NotANumber))
    }
}

/// The value a `u32` numeral takes when reinterpreted as an `i32`, as
/// the year of a long date is.
pub open spec fn u32_wrap_i32(v: int) -> int {
    if v > i32::MAX {
        v - 0x1_0000_0000
    } else {
        v
    }
}

/// A clock-in or a date, led by the number `n1`.  A `:` makes a
/// clock-in of `n1` hours; a `/` makes a date, long when a second `/`
/// follows; anything else is `NotSlashOrColon` at `n1`.  Two numbers
/// that do not fit a minute count are `NotATime` at `n1`.
pub open spec fn spec_from_number(s: Seq<char>, n1: GToken) -> Result<
    (GAction, int),
    GParseErr,
> {
    match token_at(s, n1.end) {
        Err(p) => Err(no_token_err(p)),
        Ok(d1) => {
            if d1.tt != TokenType::Colon && d1.tt != TokenType::Slash {
                Err(tok_err(n1, ErrType::NotSlashOrColon))
            } else {
                match token_at(s, d1.end) {
                    Err(p) => Err(no_token_err(p)),
                    Ok(n2) => {
                        if d1.tt == TokenType::Colon {
                            match (g_num_val(n1), g_num_val(n2)) {
                                (Err(e), _) => Err(e),
                                (Ok(_), Err(e)) => Err(e),
                                (Ok(h), Ok(m)) => {
                                    if h * 60 + m > u32::MAX {
                                        Err(tok_err(n1, ErrType::NotATime))
                                    } else {
                                        Ok(
                                            (
                                                GAction {
                                                    line: n1.line,
                                                    col: n1.col,
                                                    ad: GActionData::Clockin(h * 60 + m),
                                                },
                                                n2.end,
                                            ),
                                        )
                                    }
                                },
                            }
                        } else {
                            match token_at(s, n2.end) {
                                Err(_) => spec_short_date(n1, n2, skip_ws(s, n2.end)),
                                Ok(d2) => {
                                    if d2.tt == TokenType::Slash {
                                        match token_at(s, d2.end) {
                                            Err(p) => Err(no_token_err(p)),
                                            Ok(n3) => spec_long_date(n1, n2, n3),
                                        }
                                    } else {
                                        spec_short_date(n1, n2, n2.end)
                                    }
                                },
                            }
                        }
                    },
                }
            }
        },
    }
}

/// A short date `DD/MM`, positioned at `n1`, resuming at `end`.
pub open spec fn spec_short_date(n1: GToken, n2: GToken, end: int) -> Result<
    (GAction, int),
    GParseErr,
> {
    match (g_num_val(n1), g_num_val(n2)) {
        (Err(e), _) => Err(e),
        (Ok(_), Err(e)) => Err(e),
        (Ok(d), Ok(m)) => Ok(
            (GAction { line: n1.line, col: n1.col, ad: GActionData::ShortDate(d, m) }, end),
        ),
    }
}

/// A long date `DD/MM/YYYY`, positioned at `n1`; the year wraps into an
/// `i32`.
pub open spec fn spec_long_date(n1: GToken, n2: GToken, n3: GToken) -> Result<
    (GAction, int),
    GParseErr,
> {
    match (g_num_val(n1), g_num_val(n2), g_num_val(n3)) {
        (Err(e), _, _) => Err(e),
        (Ok(_), Err(e), _) => Err(e),
        (Ok(_), Ok(_), Err(e)) => Err(e),
        (Ok(d), Ok(m), Ok(y)) => Ok(
            (
                GAction {
                    line: n1.line,
                    col: n1.col,
                    ad: GActionData::LongDate(d, m, u32_wrap_i32(y)),
                },
                n3.end,
            ),
        ),
    }
}

/// A clock-out: `-` was read, and `NN:NN` must follow, each missing
/// piece reported as `Expected` at the token that stood there.  The
/// action is positioned at the first number.
pub open spec fn spec_clock_out(s: Seq<char>, pos: int) -> Result<(GAction, int), GParseErr> {
    match token_at(s, pos) {
        Err(p) => Err(no_token_err(p)),
        Ok(n1) => {
            if n1.tt != TokenType::Number {
                Err(tok_err(n1, ErrType::Expected(TokenType::Number)))
            } else {
                match token_at(s, n1.end) {
                    Err(p) => Err(no_token_err(p)),
                    Ok(c1) => {
                        if c1.tt != TokenType::Colon {
                            Err(tok_err(c1, ErrType::Expected(TokenType::Colon)))
                        } else {
                            match token_at(s, c1.end) {
                                Err(p) => Err(no_token_err(p)),
                                Ok(n2) => {
                                    if n2.tt != TokenType::Number {
                                        Err(tok_err(n2, ErrType::Expected(TokenType::Number)))
                                    } else {
                                        match (g_num_val(n1), g_num_val(n2)) {
                                            (Err(e), _) => Err(e),
                                            (Ok(_), Err(e)) => Err(e),
                                            (Ok(h), Ok(m)) => {
                                                if h * 60 + m > u32::MAX {
                                                    Err(tok_err(n1, ErrType::NotATime))
                                                } else {
                                                    Ok(
                                                        (
                                                            GAction {
                                                                line: n1.line,
                                                                col: n1.col,
                                                                ad: GActionData::Clockout(
                                                                    h * 60 + m,
                                                                ),
                                                            },
                                                            n2.end,
                                                        ),
                                                    )
                                                }
                                            },
                                        }
                                    }
                                },
                            }
                        }
                    },
                }
            }
        },
    }
}

/// An assignment or a job name, led by the identifier `t`.  Only the
/// identifier `year` may stand before `=`; an identifier alone sets the
/// job.
pub open spec fn spec_from_ident(s: Seq<char>, t: GToken) -> Result<(GAction, int), GParseErr> {
    match token_at(s, t.end) {
        Err(_) => Ok(
            (GAction { line: t.line, col: t.col, ad: GActionData::SetJob(t.text) }, skip_ws(
                s,
                t.end,
            )),
        ),
        Ok(eq) => {
            if eq.tt == TokenType::Equals {
                if t.text == "year"@ {
                    match token_at(s, eq.end) {
                        Err(p) => Err(no_token_err(p)),
                        Ok(yr) => {
                            if yr.tt != TokenType::Number {
                                Err(tok_err(yr, ErrType::Expected(TokenType::Number)))
                            } else {
                                match g_num_val(yr) {
                                    Err(e) => Err(e),
                                    Ok(v) => Ok(
                                        (
                                            GAction {
                                                line: t.line,
                                                col: t.col,
                                                ad: GActionData::SetYear(u32_wrap_i32(v)),
                                            },
                                            yr.end,
                                        ),
                                    ),
                                }
                            }
                        },
                    }
                } else {
                    Err(tok_err(eq, ErrType::NotYear))
                }
            } else {
                Ok((GAction { line: t.line, col: t.col, ad: GActionData::SetJob(t.text) }, t.end))
            }
        },
    }
}

/// A tag set, led by the tag mark `t`: an identifier must follow.
pub open spec fn spec_tag(s: Seq<char>, t: GToken) -> Result<(GAction, int), GParseErr> {
    match token_at(s, t.end) {
        Err(p) => Err(no_token_err(p)),
        Ok(id) => {
            if id.tt != TokenType::Ident {
                Err(tok_err(id, ErrType::Expected(TokenType::Ident)))
            } else {
                Ok((GAction { line: t.line, col: t.col, ad: GActionData::Tag(id.text) }, id.end))
            }
        },
    }
}

/// A tag clear, led by the clear mark `t`: with an identifier one tag
/// is cleared, without one all are.
pub open spec fn spec_clear_tag(s: Seq<char>, t: GToken) -> Result<(GAction, int), GParseErr> {
    match token_at(s, t.end) {
        Err(_) => Ok(
            (GAction { line: t.line, col: t.col, ad: GActionData::ClearTags }, skip_ws(s, t.end)),
        ),
        Ok(nt) => {
            if nt.tt == TokenType::Ident {
                Ok(
                    (
                        GAction { line: t.line, col: t.col, ad: GActionData::ClearTag(nt.text) },
                        nt.end,
                    ),
                )
            } else {
                Ok((GAction { line: t.line, col: t.col, ad: GActionData::ClearTags }, t.end))
            }
        },
    }
}

/// The members of a group, read until `]`: identifiers collect in
/// order, duplicates kept; separators are skipped; the end of input is
/// `UnexpectedEOF`; anything else is `Expected(Ident)`.
pub open spec fn spec_group_members(s: Seq<char>, pos: int, acc: Seq<Seq<char>>) -> Result<
    (Seq<Seq<char>>, int),
    GParseErr,
>
    decreases s.len() - pos when 0 <= pos <= s.len() via spec_group_members_decreases
{
    match token_at(s, pos) {
        Err(p) => Err(no_token_err(p)),
        Ok(t) => {
            if t.tt == TokenType::Ident {
                spec_group_members(s, t.end, acc + seq![t.text])
            } else if t.tt == TokenType::Sep {
                spec_group_members(s, t.end, acc)
            } else if t.tt == TokenType::SquareClose {
                Ok((acc, t.end))
            } else if t.tt == TokenType::EOF {
                Err(tok_err(t, ErrType::UnexpectedEOF))
            } else {
                Err(tok_err(t, ErrType::Expected(TokenType::Ident)))
            }
        },
    }
}

#[via_fn]
proof fn spec_group_members_decreases(s: Seq<char>, pos: int, acc: Seq<Seq<char>>) {
    if 0 <= pos <= s.len() {
        lemma_token_at_bounds(s, pos);
    }
}

/// A group definition: `$` was read; a name, `[`, the members and `]`
/// must follow.  The action is positioned at the name.
pub open spec fn spec_group(s: Seq<char>, pos: int) -> Result<(GAction, int), GParseErr> {
    match token_at(s, pos) {
        Err(p) => Err(no_token_err(p)),
        Ok(name) => {
            if name.tt != TokenType::Ident {
                Err(tok_err(name, ErrType::Expected(TokenType::Ident)))
            } else {
                match token_at(s, name.end) {
                    Err(p) => Err(no_token_err(p)),
                    Ok(open) => {
                        if open.tt != TokenType::SquareOpen {
                            Err(tok_err(open, ErrType::Expected(TokenType::SquareOpen)))
                        } else {
                            match spec_group_members(s, open.end, Seq::empty()) {
                                Err(e) => Err(e),
                                Ok((members, end)) => Ok(
                                    (
                                        GAction {
                                            line: name.line,
                                            col: name.col,
                                            ad: GActionData::Group(name.text, members),
                                        },
                                        end,
                                    ),
                                ),
                            }
                        }
                    },
                }
            }
        },
    }
}

/// The next action at position `pos` of the text: separators are
/// skipped, then the first token decides.  This is the parser's whole
/// behaviour.
pub open spec fn next_action_at(s: Seq<char>, pos: int) -> Result<(GAction, int), GParseErr>
    decreases s.len() - pos when 0 <= pos <= s.len() via next_action_at_decreases
{
    match token_at(s, pos) {
        Err(p) => Err(no_token_err(p)),
        Ok(t) => {
            if t.tt == TokenType::Sep {
                next_action_at(s, t.end)
            } else if t.tt == TokenType::Number {
                spec_from_number(s, t)
            } else if t.tt == TokenType::EOF {
                Ok((GAction { line: t.line, col: t.col, ad: GActionData::End }, t.end))
            } else if t.tt == TokenType::Minus {
                spec_clock_out(s, t.end)
            } else if t.tt == TokenType::Ident {
                spec_from_ident(s, t)
            } else if t.tt == TokenType::Tag {
                spec_tag(s, t)
            } else if t.tt == TokenType::ClearTag {
                spec_clear_tag(s, t)
            } else if t.tt == TokenType::Dollar {
                spec_group(s, t.end)
            } else {
                Err(tok_err(t, ErrType::NotAnItem))
            }
        },
    }
}

#[via_fn]
proof fn next_action_at_decreases(s: Seq<char>, pos: int) {
    if 0 <= pos <= s.len() {
        lemma_token_at_bounds(s, pos);
    }
}

pub proof fn lemma_group_members_bounds(s: Seq<char>, pos: int, acc: Seq<Seq<char>>)
    requires
        0 <= pos <= s.len(),
    ensures
        match spec_group_members(s, pos, acc) {
            Ok((mem, end)) => pos <= end <= s.len(),
            Err(_) => true,
        },
    decreases s.len() - pos,
{
    lemma_token_at_bounds(s, pos);
    match token_at(s, pos) {
        Ok(t) => {
            if t.tt == TokenType::Ident {
                lemma_group_members_bounds(s, t.end, acc + seq![t.text]);
            } else if t.tt == TokenType::Sep {
                lemma_group_members_bounds(s, t.end, acc);
            }
        },
        Err(_) => {},
    }
}

/// Every action ends inside the text, and every action but the end of
/// input consumes at least one character.
pub proof fn lemma_next_action_bounds(s: Seq<char>, pos: int)
    requires
        0 <= pos <= s.len(),
    ensures
        match next_action_at(s, pos) {
            Ok((a, end)) => pos <= end <= s.len() && (!(a.ad is End) ==> pos < end),
            Err(_) => true,
        },
    decreases s.len() - pos,
{
    lemma_token_at_bounds(s, pos);
    match token_at(s, pos) {
        Err(_) => {},
        Ok(t) => {
            if t.tt == TokenType::Sep {
                lemma_next_action_bounds(s, t.end);
            } else if t.tt == TokenType::Number {
                lemma_token_at_bounds(s, t.end);
                match token_at(s, t.end) {
                    Ok(d1) => {
                        lemma_token_at_bounds(s, d1.end);
                        match token_at(s, d1.end) {
                            Ok(n2) => {
                                lemma_token_at_bounds(s, n2.end);
                                crate::tokenize::lemma_skip_ws_bounds(s, n2.end);
                                match token_at(s, n2.end) {
                                    Ok(d2) => {
                                        lemma_token_at_bounds(s, d2.end);
                                    },
                                    Err(_) => {},
                                }
                            },
                            Err(_) => {},
                        }
                    },
                    Err(_) => {},
                }
            } else if t.tt == TokenType::Minus {
                lemma_token_at_bounds(s, t.end);
                match token_at(s, t.end) {
                    Ok(n1) => {
                        lemma_token_at_bounds(s, n1.end);
                        match token_at(s, n1.end) {
                            Ok(c1) => {
                                lemma_token_at_bounds(s, c1.end);
                            },
                            Err(_) => {},
                        }
                    },
                    Err(_) => {},
                }
            } else if t.tt == TokenType::Ident {
                lemma_token_at_bounds(s, t.end);
                crate::tokenize::lemma_skip_ws_bounds(s, t.end);
                match token_at(s, t.end) {
                    Ok(eq) => {
                        lemma_token_at_bounds(s, eq.end);
                    },
                    Err(_) => {},
                }
            } else if t.tt == TokenType::Tag {
                lemma_token_at_bounds(s, t.end);
            } else if t.tt == TokenType::ClearTag {
                lemma_token_at_bounds(s, t.end);
                crate::tokenize::lemma_skip_ws_bounds(s, t.end);
            } else if t.tt == TokenType::Dollar {
                lemma_token_at_bounds(s, t.end);
                match token_at(s, t.end) {
                    Ok(name) => {
                        lemma_token_at_bounds(s, name.end);
                        match token_at(s, name.end) {
                            Ok(open) => {
                                lemma_group_members_bounds(s, open.end, Seq::empty());
                            },
                            Err(_) => {},
                        }
                    },
                    Err(_) => {},
                }
            }
        },
    }
}

/// The parser: a tokenizer and at most one token of pushback.  The
/// ghost `buf_pos` remembers where the buffered token was read from, so
/// that the stream position is well defined.
pub struct Parser<'a> {
    tk: Tokenizer<'a>,
    next: Option<Token<'a>>,
    buf_pos: Ghost<int>,
}

impl<'a> Parser<'a> {
    /// The source text.
    pub closed spec fn src(self) -> Seq<char> {
        self.tk.src()
    }

    /// The position the next token will be read from.
    pub closed spec fn stream_pos(self) -> int {
        match self.next {
            Some(_) => self.buf_pos@,
            None => self.tk.position(),
        }
    }

    /// The tokenizer is sound and any buffered token is exactly the
    /// token found at the remembered position.
    pub closed spec fn buffer_ok(self) -> bool {
        &&& self.tk.wf()
        &&& match self.next {
            Some(t) => {
                &&& 0 <= self.buf_pos@ <= self.tk.src().len()
                &&& match token_at(self.tk.src(), self.buf_pos@) {
                    Ok(g) => token_matches(t, g) && g.end == self.tk.position(),
                    Err(_) => false,
                }
            },
            None => true,
        }
    }

    /// The stream position is inside the text and the buffered token,
    /// if any, is sound.
    pub open spec fn wf(self) -> bool {
        &&& 0 <= self.stream_pos() <= self.src().len()
        &&& self.src().len() < usize::MAX
        &&& self.buffer_ok()
    }

    pub fn new(s: &'a str) -> (p: Parser<'a>)
        requires
            s@.len() < usize::MAX,
        ensures
            p.wf(),
            p.src() == s@,
            p.stream_pos() == 0,
    {
        Parser { tk: Tokenizer::new(s), next: None, buf_pos: Ghost(0) }
    }

    /// The buffered token if one is waiting, else the tokenizer's next.
    fn next_token(&mut self) -> (r: TokenRes<'a>)
        requires
            old(self).wf(),
        ensures
            final(self).wf(),
            final(self).src() == old(self).src(),
            final(self).next is None,
            match (r, token_at(old(self).src(), old(self).stream_pos())) {
                (Ok(t), Ok(g)) => token_matches(t, g) && final(self).stream_pos() == g.end,
                (Err(e), Err(p)) => {
                    &&& perr_matches(e, no_token_err(p))
                    &&& final(self).stream_pos() == skip_ws(
                        old(self).src(),
                        old(self).stream_pos(),
                    )
                },
                _ => false,
            },
    {
        match self.next.take() {
            Some(t) => Ok(t),
            None => self.tk.next_token(),
        }
    }

    /// The next token, which must be of kind `tt`; a token of another
    /// kind is consumed and reported as `Expected(tt)` at its position.
    fn next_token_as(&mut self, tt: TokenType) -> (r: TokenRes<'a>)
        requires
            old(self).wf(),
        ensures
            final(self).wf(),
            final(self).src() == old(self).src(),
            match (r, token_at(old(self).src(), old(self).stream_pos())) {
                (Ok(t), Ok(g)) => {
                    &&& g.tt == tt
                    &&& token_matches(t, g)
                    &&& final(self).stream_pos() == g.end
                },
                (Err(e), Ok(g)) => {
                    &&& g.tt != tt
                    &&& perr_matches(e, tok_err(g, ErrType::Expected(tt)))
                    &&& final(self).stream_pos() == g.end
                },
                (Err(e), Err(p)) => perr_matches(e, no_token_err(p)),
                _ => false,
            },
    {
        let t = match self.next_token() {
            Ok(t) => t,
            Err(e) => {
                return Err(e);
            },
        };
        if t.tt != tt {
            return Err(t.as_err(ErrType::Expected(tt)));
        }
        Ok(t)
    }

    /// The next token when it is of kind `tt`; any other token is
    /// pushed back, and a character-level failure is swallowed.
    fn try_next_token(&mut self, tt: TokenType) -> (r: Option<Token<'a>>)
        requires
            old(self).wf(),
        ensures
            final(self).wf(),
            final(self).src() == old(self).src(),
            match token_at(old(self).src(), old(self).stream_pos()) {
                Ok(g) => {
                    if g.tt == tt {
                        match r {
                            Some(t) => token_matches(t, g) && final(self).stream_pos() == g.end,
                            None => false,
                        }
                    } else {
                        r is None && final(self).stream_pos() == old(self).stream_pos()
                    }
                },
                Err(_) => r is None && final(self).stream_pos() == skip_ws(
                    old(self).src(),
                    old(self).stream_pos(),
                ),
            },
    {
        let ghost p0 = self.stream_pos();
        let t = match self.next_token() {
            Ok(t) => t,
            Err(_) => {
                return None;
            },
        };
        if t.tt == tt {
            Some(t)
        } else {
            self.next = Some(t);
            self.buf_pos = Ghost(p0);
            None
        }
    }

    /// Reads the action led by the already-consumed number token
    /// `num1`: a clock-in or a date, as [`spec_from_number`] decides.
    pub fn from_number(&mut self, num1: Token<'a>) -> (r: ActionRes<'a>)
        requires
            old(self).wf(),
        ensures
            final(self).wf(),
            final(self).src() == old(self).src(),
            match (r, spec_from_number(old(self).src(), g_of(num1, old(self).stream_pos()))) {
                (Ok(a), Ok((g, end))) => a@ == g && final(self).stream_pos() == end,
                (Err(e), Err(ge)) => perr_matches(e, ge),
                _ => false,
            },
    {
        let delim1 = match self.next_token() {
            Ok(t) => t,
            Err(e) => {
                return Err(e);
            },
        };
        if delim1.tt != TokenType::Colon && delim1.tt != TokenType::Slash {
            return Err(num1.as_err(ErrType::NotSlashOrColon));
        }
        let num2 = match self.next_token() {
            Ok(t) => t,
            Err(e) => {
                return Err(e);
            },
        };
        if delim1.tt == TokenType::Colon {
            let h = match num1.num_val() {
                Ok(v) => v,
                Err(e) => {
                    return Err(e);
                },
            };
            let m = match num2.num_val() {
                Ok(v) => v,
                Err(e) => {
                    return Err(e);
                },
            };
            return match STime::try_new(h, m) {
                Some(st) => Ok(
                    Action { line: num1.line, col: num1.col, ad: ActionData::Clockin(st) },
                ),
                None => Err(num1.as_err(ErrType::NotATime)),
            };
        }
        match self.try_next_token(TokenType::Slash) {
            None => {
                let d = match num1.num_val() {
                    Ok(v) => v,
                    Err(e) => {
                        return Err(e);
                    },
                };
                let m = match num2.num_val() {
                    Ok(v) => v,
                    Err(e) => {
                        return Err(e);
                    },
                };
                Ok(Action { line: num1.line, col: num1.col, ad: ActionData::ShortDate(d, m) })
            },
            Some(_) => {
                let num3 = match self.next_token() {
                    Ok(t) => t,
                    Err(e) => {
                        return Err(e);
                    },
                };
                let d = match num1.num_val() {
                    Ok(v) => v,
                    Err(e) => {
                        return Err(e);
                    },
                };
                let m = match num2.num_val() {
                    Ok(v) => v,
                    Err(e) => {
                        return Err(e);
                    },
                };
                let y = match num3.num_val() {
                    Ok(v) => v,
                    Err(e) => {
                        return Err(e);
                    },
                };
                let year: i32 = if y > 2147483647 {
                    ((y as i64) - 4294967296i64) as i32
                } else {
                    y as i32
                };
                Ok(Action { line: num1.line, col: num1.col, ad: ActionData::LongDate(d, m, year) })
            },
        }
    }

    /// Reads the clock-out that must follow a `-`, as
    /// [`spec_clock_out`] decides.
    pub fn clock_out(&mut self) -> (r: ActionRes<'a>)
        requires
            old(self).wf(),
        ensures
            final(self).wf(),
            final(self).src() == old(self).src(),
            match (r, spec_clock_out(old(self).src(), old(self).stream_pos())) {
                (Ok(a), Ok((g, end))) => a@ == g && final(self).stream_pos() == end,
                (Err(e), Err(ge)) => perr_matches(e, ge),
                _ => false,
            },
    {
        let num1 = match self.next_token_as(TokenType::Number) {
            Ok(t) => t,
            Err(e) => {
                return Err(e);
            },
        };
        match self.next_token_as(TokenType::Colon) {
            Ok(_) => {},
            Err(e) => {
                return Err(e);
            },
        };
        let num2 = match self.next_token_as(TokenType::Number) {
            Ok(t) => t,
            Err(e) => {
                return Err(e);
            },
        };
        let h = match num1.num_val() {
            Ok(v) => v,
            Err(e) => {
                return Err(e);
            },
        };
        let m = match num2.num_val() {
            Ok(v) => v,
            Err(e) => {
                return Err(e);
            },
        };
        match STime::try_new(h, m) {
            Some(st) => Ok(Action { line: num1.line, col: num1.col, ad: ActionData::Clockout(st) }),
            None => Err(num1.as_err(ErrType::NotATime)),
        }
    }

    /// Reads the action led by the already-consumed identifier `t`: a
    /// year assignment or a job name, as [`spec_from_ident`] decides.
    pub fn from_ident(&mut self, t: Token<'a>) -> (r: ActionRes<'a>)
        requires
            old(self).wf(),
        ensures
            final(self).wf(),
            final(self).src() == old(self).src(),
            match (r, spec_from_ident(old(self).src(), g_of(t, old(self).stream_pos()))) {
                (Ok(a), Ok((g, end))) => a@ == g && final(self).stream_pos() == end,
                (Err(e), Err(ge)) => perr_matches(e, ge),
                _ => false,
            },
    {
        match self.try_next_token(TokenType::Equals) {
            Some(eq) => {
                if str_eq(t.s, "year") {
                    let yr = match self.next_token_as(TokenType::Number) {
                        Ok(tk) => tk,
                        Err(e) => {
                            return Err(e);
                        },
                    };
                    let v = match yr.num_val() {
                        Ok(v) => v,
                        Err(e) => {
                            return Err(e);
                        },
                    };
                    let year: i32 = if v > 2147483647 {
                        ((v as i64) - 4294967296i64) as i32
                    } else {
                        v as i32
                    };
                    Ok(Action { line: t.line, col: t.col, ad: ActionData::SetYear(year) })
                } else {
                    Err(eq.as_err(ErrType::NotYear))
                }
            },
            None => Ok(Action { line: t.line, col: t.col, ad: ActionData::SetJob(t.s) }),
        }
    }

    /// Reads the group definition that must follow a `$`, as
    /// [`spec_group`] decides.
    pub fn group(&mut self) -> (r: ActionRes<'a>)
        requires
            old(self).wf(),
        ensures
            final(self).wf(),
            final(self).src() == old(self).src(),
            match (r, spec_group(old(self).src(), old(self).stream_pos())) {
                (Ok(a), Ok((g, end))) => a@ == g && final(self).stream_pos() == end,
                (Err(e), Err(ge)) => perr_matches(e, ge),
                _ => false,
            },
    {
        let ghost s = self.src();
        let ghost p0 = self.stream_pos();
        let name = match self.next_token_as(TokenType::Ident) {
            Ok(t) => t,
            Err(e) => {
                return Err(e);
            },
        };
        match self.next_token_as(TokenType::SquareOpen) {
            Ok(_) => {},
            Err(e) => {
                return Err(e);
            },
        };
        let ghost start = self.stream_pos();
        let mut members: Vec<String> = Vec::new();
        proof {
            assert(members.deep_view() =~= Seq::<Seq<char>>::empty());
        }
        loop
            invariant
                self.wf(),
                self.src() == s,
                s == old(self).src(),
                p0 == old(self).stream_pos(),
                spec_group_members(s, self.stream_pos(), members.deep_view())
                    == spec_group_members(s, start, Seq::<Seq<char>>::empty()),
                0 <= self.stream_pos() <= s.len(),
                match spec_group_members(s, start, Seq::<Seq<char>>::empty()) {
                    Ok((mem, end)) => spec_group(s, p0) == Ok::<(GAction, int), GParseErr>(
                        (
                            GAction {
                                line: name.line as int,
                                col: name.col as int,
                                ad: GActionData::Group(name.s@, mem),
                            },
                            end,
                        ),
                    ),
                    Err(e) => spec_group(s, p0) == Err::<(GAction, int), GParseErr>(e),
                },
            decreases s.len() - self.stream_pos(),
        {
            proof {
                lemma_token_at_bounds(s, self.stream_pos());
            }
            let next_member = match self.next_token() {
                Ok(t) => t,
                Err(e) => {
                    return Err(e);
                },
            };
            if next_member.tt == TokenType::Ident {
                let ghost before = members.deep_view();
                members.push(next_member.s.to_owned());
                proof {
                    assert(members.deep_view() =~= before + seq![next_member.s@]);
                }
            } else if next_member.tt == TokenType::Sep {
            } else if next_member.tt == TokenType::SquareClose {
                return Ok(
                    Action {
                        line: name.line,
                        col: name.col,
                        ad: ActionData::Group(name.s.to_owned(), members),
                    },
                );
            } else if next_member.tt == TokenType::EOF {
                return Err(next_member.as_err(ErrType::UnexpectedEOF));
            } else {
                return Err(next_member.as_err(ErrType::Expected(TokenType::Ident)));
            }
        }
    }

    /// Reads the next action of the document, as [`next_action_at`]
    /// decides it: separators are skipped, then the first token leads.
    pub fn next_action(&mut self) -> (r: ActionRes<'a>)
        requires
            old(self).wf(),
        ensures
            final(self).wf(),
            final(self).src() == old(self).src(),
            match (r, next_action_at(old(self).src(), old(self).stream_pos())) {
                (Ok(a), Ok((g, end))) => a@ == g && final(self).stream_pos() == end,
                (Err(e), Err(ge)) => perr_matches(e, ge),
                _ => false,
            },
    {
        let ghost s = self.src();
        let ghost p0 = self.stream_pos();
        let mut t = match self.next_token() {
            Ok(t) => t,
            Err(e) => {
                return Err(e);
            },
        };
        let ghost mut cur = p0;
        while t.tt == TokenType::Sep
            invariant
                self.wf(),
                self.src() == s,
                s == old(self).src(),
                p0 == old(self).stream_pos(),
                0 <= cur <= s.len(),
                next_action_at(s, p0) == next_action_at(s, cur),
                token_at(s, cur) is Ok,
                token_matches(t, token_at(s, cur)->Ok_0),
                self.stream_pos() == token_at(s, cur)->Ok_0.end,
            decreases s.len() - cur,
        {
            proof {
                lemma_token_at_bounds(s, cur);
            }
            let ghost prev_end = token_at(s, cur)->Ok_0.end;
            proof {
                assert(next_action_at(s, cur) == next_action_at(s, prev_end));
            }
            t = match self.next_token() {
                Ok(t2) => t2,
                Err(e) => {
                    return Err(e);
                },
            };
            proof {
                cur = prev_end;
            }
        }
        let ghost tg = token_at(s, cur)->Ok_0;
        proof {
            lemma_token_at_bounds(s, cur);
        }
        if t.tt == TokenType::Number {
            self.from_number(t)
        } else if t.tt == TokenType::EOF {
            Ok(Action { line: t.line, col: t.col, ad: ActionData::End })
        } else if t.tt == TokenType::Minus {
            self.clock_out()
        } else if t.tt == TokenType::Ident {
            self.from_ident(t)
        } else if t.tt == TokenType::Tag {
            let id = match self.next_token_as(TokenType::Ident) {
                Ok(i) => i,
                Err(e) => {
                    return Err(e);
                },
            };
            Ok(Action { line: t.line, col: t.col, ad: ActionData::Tag(id.s) })
        } else if t.tt == TokenType::ClearTag {
            match self.try_next_token(TokenType::Ident) {
                Some(nt) => Ok(Action { line: t.line, col: t.col, ad: ActionData::ClearTag(nt.s) }),
                None => Ok(Action { line: t.line, col: t.col, ad: ActionData::ClearTags }),
            }
        } else if t.tt == TokenType::Dollar {
            self.group()
        } else {
            Err(t.as_err(ErrType::NotAnItem))
        }
    }
}

} // verus!
