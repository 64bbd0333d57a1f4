use md_parser::constants::LexConst;
use md_parser::lex::{Token, Tokenizer};

const RAW_MARKDOWN_TEXT: &'static str = r#"# 标题 H1
## 标题 H2
### 标题 H3
#### 标题 H4


这是一个**加粗文本**，这是一个*斜体文本*，这是~~删除线文本~~。

##### 标题 H5

无序列表：
- 项目一
- 项目二
- 项目三

有序列表：
1. 第一步
2. 第二步
3. 第三步

> 这是一个引用块，常用于引用他人话语或备注内容。

###### 标题 H6

`inline code` 是行内代码片段。
"#;

fn text(s: &str) -> Token {
    Token::Text(s.to_string())
}

fn nl() -> Token {
    text("\n")
}

fn scan(input: &str) -> Vec<Token> {
    let mut tokenizer = Tokenizer::new(input.to_string());
    tokenizer.text_to_token_list();
    assert_eq!(tokenizer.ind, tokenizer.chars.len());
    tokenizer.tokens
}

#[test]
fn test_char_indices() {
    let mut tokenizer = Tokenizer::new(RAW_MARKDOWN_TEXT.into());
    tokenizer.text_to_token_list();
    println!("tokens is {:#?}", tokenizer.tokens);
}

#[test]
fn sample_document_tokens() {
    let tokens = scan(RAW_MARKDOWN_TEXT);
    assert_eq!(tokens[0], Token::H1);
    assert_eq!(tokens[1], text("标题 H1"));
    assert_eq!(tokens[2], nl());
    assert_eq!(tokens[3], Token::H2);
    assert_eq!(tokens[4], text("标题 H2"));
    let lists = tokens.iter().filter(|t| **t == Token::UnOrderedList).count();
    assert_eq!(lists, 3);
    let quotes = tokens.iter().filter(|t| **t == Token::Quote).count();
    assert_eq!(quotes, 1);
    let newlines = tokens.iter().filter(|t| **t == nl()).count();
    assert_eq!(newlines, RAW_MARKDOWN_TEXT.matches('\n').count());
    assert!(tokens.contains(&Token::H6));
    assert!(tokens.contains(&text("`inline code` 是行内代码片段。")));
}

#[test]
fn long_header_run_does_not_hang() {
    assert_eq!(scan("####### x"), vec![text("#######"), text("x")]);
    assert_eq!(scan("########"), vec![text("########")]);
}

fn header_of_level(n: usize) -> Token {
    match n {
        1 => Token::H1,
        2 => Token::H2,
        3 => Token::H3,
        4 => Token::H4,
        5 => Token::H5,
        _ => Token::H6,
    }
}

#[test]
fn header_levels_one_to_six() {
    for n in 1..=6 {
        let input = format!("{} title text\n", "#".repeat(n));
        assert_eq!(scan(&input), vec![header_of_level(n), text("title text"), nl()]);
        let input = format!("{} t", "#".repeat(n));
        assert_eq!(scan(&input), vec![header_of_level(n), text("t")]);
    }
}

fn spell(tokens: &[Token]) -> String {
    let mut out = String::new();
    for t in tokens {
        match t {
            Token::H1 => out.push_str("#"),
            Token::H2 => out.push_str("##"),
            Token::H3 => out.push_str("###"),
            Token::H4 => out.push_str("####"),
            Token::H5 => out.push_str("#####"),
            Token::H6 => out.push_str("######"),
            Token::UnOrderedList => out.push_str("-"),
            Token::Quote => out.push_str(">"),
            Token::Text(p) => out.push_str(p),
            other => panic!("unexpected token {:?}", other),
        }
    }
    out
}

#[test]
fn spelled_tokens_give_back_the_lines() {
    let cases = [
        ("###   Title  here\n", "###Title  here\n"),
        ("*\titem\r\n", "-item\n"),
        ("-  a - b\n", "-a - b\n"),
        (">   q > r", ">q > r"),
        ("  plain  words \n", "plain  words \n"),
        ("######## seven", "########seven"),
        ("a\n\nb", "a\n\nb"),
    ];
    for (input, normal) in cases {
        assert_eq!(spell(&scan(input)), normal);
    }
}

#[test]
fn header_without_line_break() {
    assert_eq!(scan("### a b"), vec![Token::H3, text("a b")]);
    assert_eq!(scan("#"), vec![Token::H1, text("")]);
}

#[test]
fn unordered_list_item() {
    assert_eq!(scan("- item one\n"), vec![Token::UnOrderedList, text("item one"), nl()]);
    assert_eq!(scan("* item two\n"), vec![Token::UnOrderedList, text("item two"), nl()]);
}

#[test]
fn quote_line() {
    assert_eq!(scan("> quoted\n"), vec![Token::Quote, text("quoted"), nl()]);
}

#[test]
fn plain_text_line() {
    assert_eq!(scan("plain text\n"), vec![text("plain text"), nl()]);
}

#[test]
fn empty_input() {
    assert_eq!(scan(""), vec![]);
}

#[test]
fn crlf_and_lf_give_one_newline_each() {
    assert_eq!(scan("\n"), vec![nl()]);
    assert_eq!(scan("\r\n"), vec![nl()]);
    assert_eq!(scan("a\r\nb\n"), vec![text("a"), nl(), text("b"), nl()]);
    assert_eq!(scan("- x\r\n\r\n> y"), vec![Token::UnOrderedList, text("x"), nl(), nl(), Token::Quote, text("y")]);
}

#[test]
fn lone_carriage_return_is_blank() {
    assert_eq!(scan("a\r"), vec![text("a\r")]);
    assert_eq!(scan("\rb"), vec![text("b")]);
}

#[test]
fn leading_unicode_blanks_are_skipped() {
    assert_eq!(scan("\u{3000}\tword\n"), vec![text("word"), nl()]);
    assert_eq!(scan(">\u{a0}q"), vec![Token::Quote, text("q")]);
}

#[test]
fn blank_line_gives_empty_text() {
    assert_eq!(scan("  \n"), vec![text(""), nl()]);
}

#[test]
fn marker_without_text() {
    assert_eq!(scan("-\n"), vec![Token::UnOrderedList, text(""), nl()]);
}

#[test]
fn multibyte_characters_take_one_position() {
    let tokenizer = Tokenizer::new("é标".to_string());
    assert_eq!(tokenizer.chars, vec!['é', '标']);
    assert_eq!(tokenizer.ind, 0);
    assert!(tokenizer.tokens.is_empty());
}

#[test]
fn header_token_by_level() {
    assert_eq!(Token::header(0), None);
    assert_eq!(Token::header(1), Some(Token::H1));
    assert_eq!(Token::header(4), Some(Token::H4));
    assert_eq!(Token::header(6), Some(Token::H6));
    assert_eq!(Token::header(7), None);
}

#[test]
fn peek_with_predicate() {
    let tokenizer = Tokenizer::new("#a".to_string());
    assert_eq!(tokenizer.text_peek(0, |c| *c == '#'), Some('#'));
    assert_eq!(tokenizer.text_peek(1, |c| *c == '#'), None);
    assert_eq!(tokenizer.text_peek(2, |_| true), None);
}

#[test]
fn single_scanners_move_the_cursor() {
    let mut t = Tokenizer::new("## h\n".to_string());
    t.parse_header();
    assert_eq!(t.ind, 4);
    t.parse_new_line();
    assert_eq!(t.ind, 5);
    assert_eq!(t.tokens, vec![Token::H2, text("h"), nl()]);

    let mut t = Tokenizer::new("x".to_string());
    t.parse_unordered_list();
    t.parse_quote_list();
    t.parse_header();
    t.parse_new_line();
    assert_eq!(t.ind, 0);
    assert!(t.tokens.is_empty());
    t.parse_text();
    assert_eq!(t.ind, 1);
    t.token_spy();
    assert_eq!(t.tokens, vec![text("x")]);
}

#[test]
fn constant_spellings() {
    assert_eq!(LexConst::H1, "#");
    assert_eq!(LexConst::H6, "######");
    assert_eq!(LexConst::QUOTE, r"^>\s");
    assert_eq!(LexConst::CODE, r"^```");
}
