//! Lexical analysis: the token alphabet and the scanner.
use vstd::prelude::*;
use vstd::std_specs::iter::IteratorSpec;

verus! {

/// One unit of recognised markdown syntax.
#[derive(Debug, PartialEq, Eq)]
pub enum Token {
    // headers
    H1,
    H2,
    H3,
    H4,
    H5,
    H6,
    // lists
    OrderedList,
    UnOrderedList,
    // quote
    Quote,
    // inline styles
    Underline,
    Strong,
    Italic,
    StrongItalic,
    // code
    InlineCode,
    Code,
    // a run of literal text
    Text(String),
}

/// The mathematical value of a [`Token`]: the same variants, text as a sequence
/// of characters.
pub enum TokenView {
    H1,
    H2,
    H3,
    H4,
    H5,
    H6,
    OrderedList,
    UnOrderedList,
    Quote,
    Underline,
    Strong,
    Italic,
    StrongItalic,
    InlineCode,
    Code,
    Text(Seq<char>),
}

impl View for Token {
    type V = TokenView;

    open spec fn view(&self) -> TokenView {
        match self {
            Token::H1 => TokenView::H1,
            Token::H2 => TokenView::H2,
            Token::H3 => TokenView::H3,
            Token::H4 => TokenView::H4,
            Token::H5 => TokenView::H5,
            Token::H6 => TokenView::H6,
            Token::OrderedList => TokenView::OrderedList,
            Token::UnOrderedList => TokenView::UnOrderedList,
            Token::Quote => TokenView::Quote,
            Token::Underline => TokenView::Underline,
            Token::Strong => TokenView::Strong,
            Token::Italic => TokenView::Italic,
            Token::StrongItalic => TokenView::StrongItalic,
            Token::InlineCode => TokenView::InlineCode,
            Token::Code => TokenView::Code,
            Token::Text(s) => TokenView::Text(s@),
        }
    }
}

/// The header marker of a level, for the levels 1 to 6.
pub open spec fn header_view(level: int) -> Option<TokenView> {
    if level == 1 {
        Some(TokenView::H1)
    } else if level == 2 {
        Some(TokenView::H2)
    } else if level == 3 {
        Some(TokenView::H3)
    } else if level == 4 {
        Some(TokenView::H4)
    } else if level == 5 {
        Some(TokenView::H5)
    } else if level == 6 {
        Some(TokenView::H6)
    } else {
        None
    }
}

impl Token {
    /// The header token of the given level, if the level is between 1 and 6.
    pub fn header(level: usize) -> (r: Option<Token>)
        ensures
            match r {
                Some(t) => header_view(level as int) == Some(t@),
                None => header_view(level as int) is None,
            },
    {
        match level {
            1 => Some(Token::H1),
            2 => Some(Token::H2),
            3 => Some(Token::H3),
            4 => Some(Token::H4),
            5 => Some(Token::H5),
            6 => Some(Token::H6),
            _ => None,
        }
    }
}


/// The tokens of a sequence of tokens, as values.
pub open spec fn views(ts: Seq<Token>) -> Seq<TokenView> {
    ts.map_values(|t: Token| t@)
}

/// Unicode's White_Space property.
pub open spec fn is_white_space(c: char) -> bool {
    let u = c as u32;
    (0x9 <= u <= 0xd) || u == 0x20 || u == 0x85 || u == 0xa0 || u == 0x1680 || (0x2000 <= u
        <= 0x200a) || u == 0x2028 || u == 0x2029 || u == 0x202f || u == 0x205f || u == 0x3000
}

/// A line break starts at `i`: a `\n`, or a `\r` followed by `\n`.
pub open spec fn is_newline_at(s: Seq<char>, i: int) -> bool {
    0 <= i < s.len() && (s[i] == '\n' || (s[i] == '\r' && i + 1 < s.len() && s[i + 1] == '\n'))
}

/// The number of characters of the line break at `i`.
pub open spec fn newline_width(s: Seq<char>, i: int) -> int {
    if s[i] == '\n' {
        1
    } else {
        2
    }
}

/// The first position from `i` on that holds no blank, where a blank is a
/// white-space character that does not start a line break.
pub open spec fn skip_blank(s: Seq<char>, i: int) -> int
    decreases s.len() - i,
{
    if 0 <= i < s.len() && is_white_space(s[i]) && !is_newline_at(s, i) {
        skip_blank(s, i + 1)
    } else {
        i
    }
}

/// The first position from `i` on where a line break starts, or the end.
pub open spec fn line_end(s: Seq<char>, i: int) -> int
    decreases s.len() - i,
{
    if 0 <= i < s.len() && !is_newline_at(s, i) {
        line_end(s, i + 1)
    } else {
        i
    }
}

/// The end of the run of `#` that starts at `i`.
pub open spec fn hash_run_end(s: Seq<char>, i: int) -> int
    decreases s.len() - i,
{
    if 0 <= i < s.len() && s[i] == '#' {
        hash_run_end(s, i + 1)
    } else {
        i
    }
}

/// Where the text that follows position `i` on its line ends.
pub open spec fn text_end(s: Seq<char>, i: int) -> int {
    line_end(s, skip_blank(s, i))
}

/// The text that follows position `i` on its line, leading blanks left out.
pub open spec fn text_after(s: Seq<char>, i: int) -> Seq<char> {
    s.subrange(skip_blank(s, i), text_end(s, i))
}

/// The tokens of the header scan at `i`: a run of 1 to 6 `#` gives the header
/// marker and the text of the line; a longer run is taken as plain text.
pub open spec fn header_tokens(s: Seq<char>, i: int) -> Seq<TokenView> {
    let e = hash_run_end(s, i);
    if e == i {
        seq![]
    } else if e - i <= 6 {
        seq![header_view(e - i)->Some_0, TokenView::Text(text_after(s, e))]
    } else {
        seq![TokenView::Text(s.subrange(i, e))]
    }
}

/// Where the header scan at `i` leaves the cursor.
pub open spec fn header_next(s: Seq<char>, i: int) -> int {
    let e = hash_run_end(s, i);
    if e == i {
        i
    } else if e - i <= 6 {
        text_end(s, e)
    } else {
        e
    }
}

/// `c` opens an unordered list item.
pub open spec fn is_list_mark(c: char) -> bool {
    c == '-' || c == '*'
}

/// The tokens of the scan of a line that opens with a one-character marker:
/// the marker and the text after it.
pub open spec fn marked_tokens(s: Seq<char>, i: int, mark: TokenView) -> Seq<TokenView> {
    seq![mark, TokenView::Text(text_after(s, i + 1))]
}

/// The tokens of the unordered-list scan at `i`.
pub open spec fn list_tokens(s: Seq<char>, i: int) -> Seq<TokenView> {
    if 0 <= i < s.len() && is_list_mark(s[i]) {
        marked_tokens(s, i, TokenView::UnOrderedList)
    } else {
        seq![]
    }
}

/// Where the unordered-list scan at `i` leaves the cursor.
pub open spec fn list_next(s: Seq<char>, i: int) -> int {
    if 0 <= i < s.len() && is_list_mark(s[i]) {
        text_end(s, i + 1)
    } else {
        i
    }
}

/// The tokens of the quote scan at `i`.
pub open spec fn quote_tokens(s: Seq<char>, i: int) -> Seq<TokenView> {
    if 0 <= i < s.len() && s[i] == '>' {
        marked_tokens(s, i, TokenView::Quote)
    } else {
        seq![]
    }
}

/// Where the quote scan at `i` leaves the cursor.
pub open spec fn quote_next(s: Seq<char>, i: int) -> int {
    if 0 <= i < s.len() && s[i] == '>' {
        text_end(s, i + 1)
    } else {
        i
    }
}

/// The token of the plain-text scan at `i`: the rest of the line, leading
/// blanks left out.
pub open spec fn text_tokens(s: Seq<char>, i: int) -> Seq<TokenView> {
    seq![TokenView::Text(text_after(s, i))]
}

/// The token of a line break: a text of one `\n`.
pub open spec fn newline_view() -> TokenView {
    TokenView::Text(seq!['\n'])
}

/// The tokens of the newline scan at `i`.
pub open spec fn newline_tokens(s: Seq<char>, i: int) -> Seq<TokenView> {
    if is_newline_at(s, i) {
        seq![newline_view()]
    } else {
        seq![]
    }
}

/// Where the newline scan at `i` leaves the cursor.
pub open spec fn newline_next(s: Seq<char>, i: int) -> int {
    if is_newline_at(s, i) {
        i + newline_width(s, i)
    } else {
        i
    }
}

/// The tokens of one step of the scan loop at `i`, chosen by the character there.
pub open spec fn step_tokens(s: Seq<char>, i: int) -> Seq<TokenView> {
    if s[i] == '#' {
        header_tokens(s, i)
    } else if is_list_mark(s[i]) {
        list_tokens(s, i)
    } else if s[i] == '>' {
        quote_tokens(s, i)
    } else if is_newline_at(s, i) {
        newline_tokens(s, i)
    } else {
        text_tokens(s, i)
    }
}

/// Where one step of the scan loop at `i` leaves the cursor.
pub open spec fn step_next(s: Seq<char>, i: int) -> int {
    if s[i] == '#' {
        header_next(s, i)
    } else if is_list_mark(s[i]) {
        list_next(s, i)
    } else if s[i] == '>' {
        quote_next(s, i)
    } else if is_newline_at(s, i) {
        newline_next(s, i)
    } else {
        text_end(s, i)
    }
}

/// The bounds of the positions that the scans reach from `i`.
pub proof fn lemma_scan_bounds(s: Seq<char>, i: int)
    requires
        0 <= i <= s.len(),
    ensures
        i <= skip_blank(s, i) <= s.len(),
        i <= line_end(s, i) <= s.len(),
        i <= hash_run_end(s, i) <= s.len(),
        i <= text_end(s, i) <= s.len(),
        skip_blank(s, i) <= text_end(s, i),
    decreases s.len() - i,
{
    if i < s.len() {
        lemma_scan_bounds(s, i + 1);
    }
    let b = skip_blank(s, i);
    if b < s.len() {
        lemma_scan_bounds(s, b + 1);
    }
}

/// Each step of the scan loop moves the cursor forward and stays within the text.
pub proof fn lemma_step_progress(s: Seq<char>, i: int)
    requires
        0 <= i < s.len(),
    ensures
        i < step_next(s, i) <= s.len(),
{
    lemma_scan_bounds(s, i);
    lemma_scan_bounds(s, i + 1);
    let e = hash_run_end(s, i);
    lemma_scan_bounds(s, e);
}

/// The tokens of the scan from `i` to the end of the text.
pub open spec fn lex_from(s: Seq<char>, i: int) -> Seq<TokenView>
    decreases s.len() - i,
    via lex_from_decreases
{
    if 0 <= i < s.len() {
        step_tokens(s, i) + lex_from(s, step_next(s, i))
    } else {
        seq![]
    }
}

/// The tokens of a whole text.
pub open spec fn lex(s: Seq<char>) -> Seq<TokenView> {
    lex_from(s, 0)
}

#[via_fn]
proof fn lex_from_decreases(s: Seq<char>, i: int) {
    if 0 <= i < s.len() {
        lemma_step_progress(s, i);
    }
}


/// Relies on char::is_whitespace: true exactly for the characters of Unicode's
/// White_Space property.
#[verifier::external_body]
fn is_whitespace(c: char) -> (r: bool)
    ensures
        r == is_white_space(c),
{
    c.is_whitespace()
}

/// Relies on String::push: appends the character at the end of the string.
#[verifier::external_body]
fn push_char(s: &mut String, c: char)
    ensures
        final(s)@ == old(s)@.push(c),
{
    s.push(c)
}

/// A scanner over one text: the text as characters, a cursor and the tokens
/// produced so far.
#[derive(Debug)]
pub struct Tokenizer {
    /// the position of the next character to scan
    pub ind: usize,
    /// the text, one element per Unicode scalar value
    pub chars: Vec<char>,
    /// the tokens produced so far, in text order
    pub tokens: Vec<Token>,
}

impl Tokenizer {
    /// The cursor lies within the text or at its end.
    pub open spec fn wf(&self) -> bool {
        self.ind <= self.chars.len()
    }

    /// A scanner at the start of `text`, with no tokens yet.
    pub fn new(text: String) -> (r: Self)
        ensures
            r.wf(),
            r.ind == 0,
            r.chars@ == text@,
            r.tokens@.len() == 0,
    {
        let mut chars: Vec<char> = Vec::new();
        let mut it = text.as_str().chars();
        broadcast use vstd::string::axiom_spec_iter, vstd::string::next_postcondition;
        let mut more = true;
        while more
            invariant
                more ==> chars@ + it.remaining() == text@,
                !more ==> chars@ == text@,
                it.decrease() is Some,
            decreases (if more { 1int } else { 0int }), it.decrease()->0,
        {
            match it.next() {
                Some(c) => {
                    chars.push(c);
                },
                None => {
                    more = false;
                },
            }
        }
        Tokenizer { ind: 0, chars, tokens: Vec::new() }
    }

    /// Leaves the scanner as it is.
    pub fn token_spy(&mut self)
        ensures
            *final(self) == *old(self),
    {
    }

    /// The character at `ind`, if there is one and `predicate` accepts it.
    pub fn text_peek<F>(&self, ind: usize, predicate: F) -> (r: Option<char>) where
        F: FnOnce(&char) -> bool,

        requires
            ind < self.chars.len() ==> predicate.requires((&self.chars@[ind as int],)),
        ensures
            ind >= self.chars.len() ==> r is None,
            ind < self.chars.len() ==> {
                let c = self.chars@[ind as int];
                ||| r == Some(c) && predicate.ensures((&c,), true)
                ||| r is None && predicate.ensures((&c,), false)
            },
    {
        if ind < self.chars.len() {
            let c = self.chars[ind];
            if predicate(&c) {
                Some(c)
            } else {
                None
            }
        } else {
            None
        }
    }

    /// Whether a line break starts at `ind`.
    fn is_newline(&self, ind: usize) -> (r: bool)
        ensures
            r == is_newline_at(self.chars@, ind as int),
    {
        if ind < self.chars.len() && self.chars[ind] == '\n' {
            return true;
        }
        if ind < self.chars.len() && ind + 1 < self.chars.len() {
            if self.chars[ind] == '\r' && self.chars[ind + 1] == '\n' {
                return true;
            }
        }
        false
    }

    /// The first position from `ind` on that holds no blank.
    fn skip_whitespace(&self, ind: usize) -> (r: usize)
        requires
            ind <= self.chars.len(),
        ensures
            r == skip_blank(self.chars@, ind as int),
    {
        let mut i = ind;
        while i < self.chars.len() && is_whitespace(self.chars[i]) && !self.is_newline(i)
            invariant
                ind <= i <= self.chars.len(),
                skip_blank(self.chars@, i as int) == skip_blank(self.chars@, ind as int),
            decreases self.chars.len() - i,
        {
            i = i + 1;
        }
        i
    }

    /// The first position from `ind` on where a line break starts, or the end.
    fn line_end(&self, ind: usize) -> (r: usize)
        requires
            ind <= self.chars.len(),
        ensures
            r == line_end(self.chars@, ind as int),
    {
        let mut i = ind;
        while i < self.chars.len() && !self.is_newline(i)
            invariant
                ind <= i <= self.chars.len(),
                line_end(self.chars@, i as int) == line_end(self.chars@, ind as int),
            decreases self.chars.len() - i,
        {
            i = i + 1;
        }
        i
    }

    /// The characters in `[left, right)`, if that range lies within the text.
    fn substring(&self, left: usize, right: usize) -> (r: Option<String>)
        ensures
            r is Some <==> left <= right <= self.chars.len(),
            r matches Some(t) ==> t@ == self.chars@.subrange(left as int, right as int),
    {
        if left > self.chars.len() || right > self.chars.len() || left > right {
            return None;
        }
        let mut t = String::new();
        let mut i = left;
        while i < right
            invariant
                left <= i <= right <= self.chars.len(),
                t@ == self.chars@.subrange(left as int, i as int),
            decreases right - i,
        {
            push_char(&mut t, self.chars[i]);
            assert(t@ =~= self.chars@.subrange(left as int, i + 1));
            i = i + 1;
        }
        Some(t)
    }

    /// Emits the text that follows `from` on its line, leading blanks left out,
    /// and moves the cursor to the end of that text.
    fn push_line_text(&mut self, from: usize)
        requires
            old(self).wf(),
            from <= old(self).chars.len(),
        ensures
            final(self).wf(),
            final(self).chars == old(self).chars,
            final(self).ind == text_end(old(self).chars@, from as int),
            views(final(self).tokens@) == views(old(self).tokens@).push(
                TokenView::Text(text_after(old(self).chars@, from as int)),
            ),
    {
        proof {
            lemma_scan_bounds(self.chars@, from as int);
        }
        let start = self.skip_whitespace(from);
        proof {
            lemma_scan_bounds(self.chars@, start as int);
        }
        let end = self.line_end(start);
        match self.substring(start, end) {
            Some(t) => {
                self.push_token(Token::Text(t));
            },
            None => {},
        }
        self.ind = end;
    }

    /// Appends one token.
    fn push_token(&mut self, t: Token)
        ensures
            final(self).ind == old(self).ind,
            final(self).chars == old(self).chars,
            views(final(self).tokens@) == views(old(self).tokens@).push(t@),
    {
        self.tokens.push(t);
        assert(views(self.tokens@) =~= views(old(self).tokens@).push(t@));
    }

    /// Scans a header at the cursor: a run of 1 to 6 `#` gives the header
    /// marker and the text of the line; a longer run is emitted as plain text
    /// and the cursor moves past it.
    pub fn parse_header(&mut self)
        requires
            old(self).wf(),
        ensures
            final(self).wf(),
            final(self).chars == old(self).chars,
            final(self).ind == header_next(old(self).chars@, old(self).ind as int),
            views(final(self).tokens@) == views(old(self).tokens@) + header_tokens(
                old(self).chars@,
                old(self).ind as int,
            ),
    {
        let ghost s = self.chars@;
        let ghost i = self.ind as int;
        // 1. the level: the length of the run of '#'
        let mut end = self.ind;
        while end < self.chars.len() && self.chars[end] == '#'
            invariant
                self.ind <= end <= self.chars.len(),
                hash_run_end(s, end as int) == hash_run_end(s, i),
                s == self.chars@,
            decreases self.chars.len() - end,
        {
            end = end + 1;
        }
        let level = end - self.ind;
        if level == 0 {
            assert(views(self.tokens@) =~= views(old(self).tokens@) + header_tokens(s, i));
            return;
        }
        match Token::header(level) {
            Some(header_token) => {
                self.push_token(header_token);
                // 2. the text of the line
                self.push_line_text(end);
                assert(views(self.tokens@) =~= views(old(self).tokens@) + header_tokens(s, i));
            },
            None => {
                // a run too long for a header is plain text
                match self.substring(self.ind, end) {
                    Some(t) => {
                        self.push_token(Token::Text(t));
                    },
                    None => {},
                }
                self.ind = end;
                assert(views(self.tokens@) =~= views(old(self).tokens@) + header_tokens(s, i));
            },
        }
    }

    /// Scans an unordered list item at the cursor: a `-` or `*` gives the list
    /// marker and the text of the line.
    pub fn parse_unordered_list(&mut self)
        requires
            old(self).wf(),
        ensures
            final(self).wf(),
            final(self).chars == old(self).chars,
            final(self).ind == list_next(old(self).chars@, old(self).ind as int),
            views(final(self).tokens@) == views(old(self).tokens@) + list_tokens(
                old(self).chars@,
                old(self).ind as int,
            ),
    {
        let ghost s = self.chars@;
        let ghost i = self.ind as int;
        let is_mark = |t: &char| -> (b: bool)
            ensures
                b == is_list_mark(*t),
            { *t == '-' || *t == '*' };
        if self.text_peek(self.ind, is_mark).is_some() {
            self.push_token(Token::UnOrderedList);
            self.ind = self.ind + 1;
            self.push_line_text(self.ind);
            assert(views(self.tokens@) =~= views(old(self).tokens@) + list_tokens(s, i));
        } else {
            assert(views(self.tokens@) =~= views(old(self).tokens@) + list_tokens(s, i));
        }
    }

    /// Scans a quote line at the cursor: a `>` gives the quote marker and the
    /// text of the line.
    pub fn parse_quote_list(&mut self)
        requires
            old(self).wf(),
        ensures
            final(self).wf(),
            final(self).chars == old(self).chars,
            final(self).ind == quote_next(old(self).chars@, old(self).ind as int),
            views(final(self).tokens@) == views(old(self).tokens@) + quote_tokens(
                old(self).chars@,
                old(self).ind as int,
            ),
    {
        let ghost s = self.chars@;
        let ghost i = self.ind as int;
        let is_mark = |t: &char| -> (b: bool)
            ensures
                b == (*t == '>'),
            { *t == '>' };
        if self.text_peek(self.ind, is_mark).is_some() {
            self.push_token(Token::Quote);
            self.ind = self.ind + 1;
            self.push_line_text(self.ind);
            assert(views(self.tokens@) =~= views(old(self).tokens@) + quote_tokens(s, i));
        } else {
            assert(views(self.tokens@) =~= views(old(self).tokens@) + quote_tokens(s, i));
        }
    }

    /// Scans plain text at the cursor: the rest of the line, leading blanks
    /// left out; the line break that ends it is left for the next scan.
    pub fn parse_text(&mut self)
        requires
            old(self).wf(),
        ensures
            final(self).wf(),
            final(self).chars == old(self).chars,
            final(self).ind == text_end(old(self).chars@, old(self).ind as int),
            views(final(self).tokens@) == views(old(self).tokens@) + text_tokens(
                old(self).chars@,
                old(self).ind as int,
            ),
    {
        let ghost s = self.chars@;
        let ghost i = self.ind as int;
        self.push_line_text(self.ind);
        assert(views(self.tokens@) =~= views(old(self).tokens@) + text_tokens(s, i));
    }

    /// Scans a line break at the cursor: `\n` or `\r\n` gives one text token
    /// holding `\n`.
    pub fn parse_new_line(&mut self)
        requires
            old(self).wf(),
        ensures
            final(self).wf(),
            final(self).chars == old(self).chars,
            final(self).ind == newline_next(old(self).chars@, old(self).ind as int),
            views(final(self).tokens@) == views(old(self).tokens@) + newline_tokens(
                old(self).chars@,
                old(self).ind as int,
            ),
    {
        let ghost s = self.chars@;
        let ghost i = self.ind as int;
        if self.is_newline(self.ind) {
            let width: usize = if self.chars[self.ind] == '\n' {
                1
            } else {
                2
            };
            proof {
                reveal_strlit("\n");
            }
            let nl = "\n".to_owned();
            assert(nl@ =~= seq!['\n']);
            self.push_token(Token::Text(nl));
            self.ind = self.ind + width;
            assert(views(self.tokens@) =~= views(old(self).tokens@) + newline_tokens(s, i));
        } else {
            assert(views(self.tokens@) =~= views(old(self).tokens@) + newline_tokens(s, i));
        }
    }

    /// Scans the text from the cursor to its end.
    pub fn text_to_token_list(&mut self)
        requires
            old(self).wf(),
        ensures
            final(self).wf(),
            final(self).chars == old(self).chars,
            final(self).ind == final(self).chars.len(),
            views(final(self).tokens@) == views(old(self).tokens@) + lex_from(
                old(self).chars@,
                old(self).ind as int,
            ),
    {
        let ghost s = self.chars@;
        while self.ind < self.chars.len()
            invariant
                self.wf(),
                self.chars@ == s,
                self.chars == old(self).chars,
                views(self.tokens@) + lex_from(s, self.ind as int) == views(old(self).tokens@)
                    + lex_from(s, old(self).ind as int),
            decreases self.chars.len() - self.ind,
        {
            let ghost i = self.ind as int;
            let ghost before = views(self.tokens@);
            proof {
                lemma_step_progress(s, i);
            }
            let c = self.chars[self.ind];
            if c == '#' {
                self.parse_header();
            } else if c == '-' || c == '*' {
                self.parse_unordered_list();
            } else if c == '>' {
                self.parse_quote_list();
            } else if self.is_newline(self.ind) {
                self.parse_new_line();
            } else {
                self.parse_text();
            }
            assert(views(self.tokens@) == before + step_tokens(s, i));
            assert(lex_from(s, i) == step_tokens(s, i) + lex_from(s, self.ind as int));
            assert(views(self.tokens@) + lex_from(s, self.ind as int) =~= before + lex_from(s, i));
        }
        assert(lex_from(s, self.ind as int) =~= seq![]);
    }
}

} // verus!
