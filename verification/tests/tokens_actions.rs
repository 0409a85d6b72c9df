use work_tock::digits::{parse_i32, parse_u32};
use work_tock::err::{ErrType, ParseErr};
use work_tock::moment::STime;
use work_tock::parser::{Action, ActionData, Parser};
use work_tock::tokenize::{TokenType, Tokenizer};

#[test]
fn tokenizer_classifies_and_positions() {
    let mut tk = Tokenizer::new("job1 9:00\n");
    let t = tk.next_token().unwrap();
    assert_eq!(t.tt, TokenType::Ident);
    assert_eq!(t.s, "job1");
    assert_eq!((t.line, t.col), (1, 1));
    let t = tk.next_token().unwrap();
    assert_eq!(t.tt, TokenType::Number);
    assert_eq!(t.s, "9");
    assert_eq!((t.line, t.col), (1, 6));
    let t = tk.next_token().unwrap();
    assert_eq!(t.tt, TokenType::Colon);
    let t = tk.next_token().unwrap();
    assert_eq!(t.tt, TokenType::Number);
    assert_eq!(t.s, "00");
    let t = tk.next_token().unwrap();
    assert_eq!(t.tt, TokenType::Sep);
    assert_eq!(t.s, "\n");
    let t = tk.next_token().unwrap();
    assert_eq!(t.tt, TokenType::EOF);
    // asking again keeps returning the end of input
    let t = tk.next_token().unwrap();
    assert_eq!(t.tt, TokenType::EOF);
}

#[test]
fn tokenizer_punctuation_and_tags() {
    let mut tk = Tokenizer::new("$x[_a __,]-=/");
    let kinds = [
        TokenType::Dollar,
        TokenType::Ident,
        TokenType::SquareOpen,
        TokenType::Tag,
        TokenType::Ident,
        TokenType::ClearTag,
        TokenType::Sep,
        TokenType::SquareClose,
        TokenType::Minus,
        TokenType::Equals,
        TokenType::Slash,
        TokenType::EOF,
    ];
    for k in kinds.iter() {
        let t = tk.next_token().unwrap();
        assert_eq!(&t.tt, k);
    }
}

#[test]
fn tokenizer_comment_becomes_separator() {
    let mut tk = Tokenizer::new("a # note\nb");
    assert_eq!(tk.next_token().unwrap().s, "a");
    let t = tk.next_token().unwrap();
    assert_eq!(t.tt, TokenType::Sep);
    assert_eq!(t.s, "\n");
    let t = tk.next_token().unwrap();
    assert_eq!(t.s, "b");
    assert_eq!((t.line, t.col), (2, 1));
}

#[test]
fn tokenizer_comment_at_end_is_eof() {
    let mut tk = Tokenizer::new("a # trailing");
    assert_eq!(tk.next_token().unwrap().s, "a");
    assert_eq!(tk.next_token().unwrap().tt, TokenType::EOF);
}

#[test]
fn tokenizer_rejects_unknown_character() {
    let mut tk = Tokenizer::new("  ;");
    assert_eq!(
        tk.next_token().unwrap_err(),
        ParseErr { line: 1, col: 3, etype: ErrType::NoToken }
    );
}

#[test]
fn tokens_reconcatenate_to_stripped_input() {
    let src = "a b,c#xx\nd  9:30\t_e";
    let mut tk = Tokenizer::new(src);
    let mut joined = String::new();
    loop {
        let t = tk.next_token().unwrap();
        if t.tt == TokenType::EOF {
            break;
        }
        joined.push_str(t.s);
    }
    assert_eq!(joined, "ab,c\nd9:30_e");
}

#[test]
fn parse_clockin_action() {
    let mut p = Parser::new("9:30");
    assert_eq!(
        p.next_action().unwrap(),
        Action { line: 1, col: 1, ad: ActionData::Clockin(STime::new(9, 30)) }
    );
}

#[test]
fn parse_clockout_action() {
    let mut p = Parser::new("  -17:00");
    assert_eq!(
        p.next_action().unwrap(),
        Action { line: 1, col: 4, ad: ActionData::Clockout(STime::new(17, 0)) }
    );
}

#[test]
fn parse_short_and_long_dates() {
    let mut p = Parser::new("1/3\n1/3/2024");
    assert_eq!(
        p.next_action().unwrap(),
        Action { line: 1, col: 1, ad: ActionData::ShortDate(1, 3) }
    );
    assert_eq!(
        p.next_action().unwrap(),
        Action { line: 2, col: 1, ad: ActionData::LongDate(1, 3, 2024) }
    );
}

#[test]
fn parse_job_year_and_tags() {
    let mut p = Parser::new("jobA\nyear=2024\n_home\n__home\n__");
    assert_eq!(
        p.next_action().unwrap(),
        Action { line: 1, col: 1, ad: ActionData::SetJob("jobA") }
    );
    assert_eq!(
        p.next_action().unwrap(),
        Action { line: 2, col: 1, ad: ActionData::SetYear(2024) }
    );
    assert_eq!(
        p.next_action().unwrap(),
        Action { line: 3, col: 1, ad: ActionData::Tag("home") }
    );
    assert_eq!(
        p.next_action().unwrap(),
        Action { line: 4, col: 1, ad: ActionData::ClearTag("home") }
    );
    assert_eq!(
        p.next_action().unwrap(),
        Action { line: 5, col: 1, ad: ActionData::ClearTags }
    );
    assert_eq!(p.next_action().unwrap().ad, ActionData::End);
}

#[test]
fn parse_group_keeps_duplicates() {
    let mut p = Parser::new("$team[alice,bob,alice]");
    let a = p.next_action().unwrap();
    assert_eq!(
        a,
        Action {
            line: 1,
            col: 2,
            ad: ActionData::Group(
                "team".to_string(),
                vec!["alice".to_string(), "bob".to_string(), "alice".to_string()],
            ),
        }
    );
}

#[test]
fn parse_group_unexpected_eof() {
    let mut p = Parser::new("$team[alice");
    assert_eq!(p.next_action().unwrap_err().etype, ErrType::UnexpectedEOF);
}

#[test]
fn parse_group_expects_ident() {
    let mut p = Parser::new("$team[9]");
    assert_eq!(
        p.next_action().unwrap_err().etype,
        ErrType::Expected(TokenType::Ident)
    );
}

#[test]
fn parse_only_year_before_equals() {
    let mut p = Parser::new("month=3");
    assert_eq!(p.next_action().unwrap_err().etype, ErrType::NotYear);
}

#[test]
fn parse_not_an_item() {
    let mut p = Parser::new("]");
    assert_eq!(p.next_action().unwrap_err().etype, ErrType::NotAnItem);
}

#[test]
fn bare_number_run_fails_at_its_position() {
    // a digit run followed by a non-delimiter at line 3, column 1
    let mut p = Parser::new("\n\n9x");
    assert_eq!(
        p.next_action().unwrap_err(),
        ParseErr { line: 3, col: 1, etype: ErrType::NotSlashOrColon }
    );
    // the same position reports NotANumber when a delimiter follows a
    // run too large for a number
    let mut p = Parser::new("\n\n99999999999:30");
    assert_eq!(
        p.next_action().unwrap_err(),
        ParseErr { line: 3, col: 1, etype: ErrType::NotANumber }
    );
}

#[test]
fn parse_u32_handles_signs_and_limits() {
    assert_eq!(parse_u32("0"), Some(0));
    assert_eq!(parse_u32("+5"), Some(5));
    assert_eq!(parse_u32("4294967295"), Some(u32::MAX));
    assert_eq!(parse_u32("4294967296"), None);
    assert_eq!(parse_u32(""), None);
    assert_eq!(parse_u32("12x"), None);
}

#[test]
fn parse_i32_handles_signs_and_limits() {
    assert_eq!(parse_i32("-5"), Some(-5));
    assert_eq!(parse_i32("2147483647"), Some(i32::MAX));
    assert_eq!(parse_i32("2147483648"), None);
    assert_eq!(parse_i32("-2147483648"), Some(i32::MIN));
    assert_eq!(parse_i32("-+5"), None);
    assert_eq!(parse_i32("-"), None);
}

#[test]
fn unrepresentable_time_is_rejected() {
    // the hour count is a fine number but no minute count can hold it
    let mut p = Parser::new("99999999:59");
    assert_eq!(
        p.next_action().unwrap_err(),
        ParseErr { line: 1, col: 1, etype: ErrType::NotATime }
    );
}

#[test]
fn clockout_demands_its_shape() {
    let mut p = Parser::new("-x");
    assert_eq!(
        p.next_action().unwrap_err().etype,
        ErrType::Expected(TokenType::Number)
    );
    let mut p = Parser::new("-9 30");
    assert_eq!(
        p.next_action().unwrap_err().etype,
        ErrType::Expected(TokenType::Colon)
    );
}
